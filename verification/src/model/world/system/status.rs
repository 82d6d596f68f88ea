use std::collections::HashMap;

use vstd::prelude::*;

use crate::model::world::character::CharacterID;
use crate::model::world::component::{Component, ComponentID, GetComponentID};
use crate::model::world::grouping::{group_map, group_runs, lemma_values_under, runs_of, runs_view, values_under};
use super::ranking::sort_by_rank;
use crate::model::world::WorldError;

verus! {

/// What a character is doing.
#[derive(Clone, Copy, Debug, PartialEq, Eq, Structural, PartialOrd, Ord, Hash)]
pub enum StatusID {
    Idle,
    Walk,
    AutoAttack,
}

/// The position of a status in the order of statuses (`Idle` first).
pub open spec fn status_key(id: StatusID) -> u64 {
    match id {
        StatusID::Idle => 0,
        StatusID::Walk => 1,
        StatusID::AutoAttack => 2,
    }
}

impl StatusID {
    /// The position of the status in the order of statuses.
    pub fn key(&self) -> (k: u64)
        ensures
            k == status_key(*self),
    {
        match self {
            StatusID::Idle => 0,
            StatusID::Walk => 1,
            StatusID::AutoAttack => 2,
        }
    }
}

/// How strongly a status holds on, or pushes to be taken up.
#[derive(Clone, Copy, Debug, PartialEq, Eq, Structural, PartialOrd, Ord)]
pub enum StatusPrio {
    Impossible,
    Lowest,
    Ability,
    AbilityOverride,
    AbilityPrioritized,
    Stunned,
}

/// The number a priority ranks by; a higher number wins.
pub open spec fn prio_value(p: StatusPrio) -> int {
    match p {
        StatusPrio::Impossible => -1,
        StatusPrio::Lowest => 0,
        StatusPrio::Ability => 2,
        StatusPrio::AbilityOverride => 3,
        StatusPrio::AbilityPrioritized => 4,
        StatusPrio::Stunned => 5,
    }
}

impl StatusPrio {
    pub fn get_prio(&self) -> (v: i32)
        ensures
            v == prio_value(*self),
    {
        match *self {
            StatusPrio::Impossible => -1,
            StatusPrio::Lowest => 0,
            StatusPrio::Ability => 2,
            StatusPrio::AbilityOverride => 3,
            StatusPrio::AbilityPrioritized => 4,
            StatusPrio::Stunned => 5,
        }
    }
}

#[derive(Clone, Copy, Debug, PartialEq, Eq, Structural)]
pub struct Status {
    pub prio: StatusPrio,
    pub id: StatusID,
}

/// The status every character falls back to.
pub open spec fn spec_idle_status() -> Status {
    Status { id: StatusID::Idle, prio: StatusPrio::Lowest }
}

pub fn idle_status() -> (s: Status)
    ensures
        s == spec_idle_status(),
{
    Status { id: StatusID::Idle, prio: StatusPrio::Lowest }
}

/// The status component of a character.
#[derive(Clone, Copy, Debug)]
pub struct StatusComponent {
    pub current: Status,
}

impl Default for StatusComponent {
    fn default() -> (s: Self)
        ensures
            s.current == spec_idle_status(),
    {
        Self { current: idle_status() }
    }
}

/// A change asked of a character's status.
#[derive(Clone, Copy, Debug, PartialEq, Eq, Structural)]
pub enum StatusUpdate {
    /// Sets the status outright; meant for characters that are new.
    New(Status),
    /// Asks for a status, pushing with the given priority.
    Try(StatusPrio, Status),
    /// Drops a status.
    Cancel(StatusID),
    /// Changes the priority of a status.
    ChangePrio(StatusID, StatusPrio),
}

impl GetComponentID for StatusComponent {
    const ID: ComponentID = ComponentID::Status;
}

impl Component for StatusComponent {
    type Update = StatusUpdate;

    /// Idle.
    open spec fn spec_initial() -> Self {
        StatusComponent { current: spec_idle_status() }
    }

    /// A `New` status replaces the current one; anything else leaves it.
    open spec fn spec_update(&self, update: &StatusUpdate) -> Self {
        match *update {
            StatusUpdate::New(status) => StatusComponent { current: status },
            _ => *self,
        }
    }

    fn initial() -> (c: Self) {
        StatusComponent { current: idle_status() }
    }

    fn update(&self, update: &StatusUpdate) -> (s: Self) {
        match *update {
            StatusUpdate::New(status) => Self { current: status },
            _ => *self,
        }
    }
}

/// The statuses set outright by `ups`, in order.
pub open spec fn new_statuses(ups: Seq<StatusUpdate>) -> Seq<Status>
    decreases ups.len(),
{
    if ups.len() == 0 {
        Seq::empty()
    } else {
        let r = new_statuses(ups.drop_last());
        match ups.last() {
            StatusUpdate::New(s) => r.push(s),
            _ => r,
        }
    }
}

/// The statuses asked for by `ups`, each with the priority it pushes with.
pub open spec fn tries(ups: Seq<StatusUpdate>) -> Seq<(StatusPrio, Status)>
    decreases ups.len(),
{
    if ups.len() == 0 {
        Seq::empty()
    } else {
        let r = tries(ups.drop_last());
        match ups.last() {
            StatusUpdate::Try(p, s) => r.push((p, s)),
            _ => r,
        }
    }
}

/// The priority changes asked by `ups`, in order, keyed by status.
pub open spec fn prio_changes(ups: Seq<StatusUpdate>) -> Seq<(u64, StatusPrio)>
    decreases ups.len(),
{
    if ups.len() == 0 {
        Seq::empty()
    } else {
        let r = prio_changes(ups.drop_last());
        match ups.last() {
            StatusUpdate::ChangePrio(id, p) => r.push((status_key(id), p)),
            _ => r,
        }
    }
}

/// `ups` drops `id`; `Idle` can never be dropped.
pub open spec fn cancelled(ups: Seq<StatusUpdate>, id: StatusID) -> bool {
    id != StatusID::Idle && exists|i: int| 0 <= i < ups.len() && ups[i] == StatusUpdate::Cancel(id)
}

/// The highest priority in a run; of equal ones, the last.
pub open spec fn run_max(run: Seq<StatusPrio>) -> StatusPrio
    decreases run.len(),
{
    if run.len() <= 1 {
        run[0]
    } else {
        let m = run_max(run.drop_last());
        if prio_value(run.last()) >= prio_value(m) {
            run.last()
        } else {
            m
        }
    }
}

/// The new priority of each status: the highest one asked in the last run of
/// consecutive priority changes for that status.
pub open spec fn prio_map(runs: Seq<(u64, Seq<StatusPrio>)>) -> Map<u64, StatusPrio>
    decreases runs.len(),
{
    if runs.len() == 0 {
        Map::empty()
    } else {
        prio_map(runs.drop_last()).insert(runs.last().0, run_max(runs.last().1))
    }
}

/// The current status, with its priority changed where `ups` changes it.
pub open spec fn adjusted_current(ups: Seq<StatusUpdate>, cur: Status) -> (StatusPrio, Status) {
    let m = prio_map(runs_of(prio_changes(ups)));
    if m.contains_key(status_key(cur.id)) {
        let p = m[status_key(cur.id)];
        (p, Status { id: cur.id, prio: p })
    } else {
        (cur.prio, cur)
    }
}

/// Every status in the running: those asked for, the current one, and idle.
pub open spec fn candidates(ups: Seq<StatusUpdate>, cur: Status) -> Seq<(StatusPrio, Status)> {
    tries(ups) + seq![adjusted_current(ups, cur), (StatusPrio::Lowest, spec_idle_status())]
}

/// `c` takes the place of `best`: it pushes harder, or as hard and comes
/// first in the order of statuses (a later request for the same status
/// replaces an earlier one).
pub open spec fn beats(c: (StatusPrio, Status), best: (StatusPrio, Status)) -> bool {
    prio_value(c.0) > prio_value(best.0) || (prio_value(c.0) == prio_value(best.0) && status_key(c.1.id)
        <= status_key(best.1.id))
}

/// The winning candidate among those not dropped by `ups`.
pub open spec fn select(cands: Seq<(StatusPrio, Status)>, ups: Seq<StatusUpdate>) -> Option<(StatusPrio, Status)>
    decreases cands.len(),
{
    if cands.len() == 0 {
        None
    } else {
        let b = select(cands.drop_last(), ups);
        let c = cands.last();
        if cancelled(ups, c.1.id) {
            b
        } else {
            match b {
                None => Some(c),
                Some(b) => if beats(c, b) {
                    Some(c)
                } else {
                    Some(b)
                },
            }
        }
    }
}

/// The status a character that exists moves to.
pub open spec fn next_status(ups: Seq<StatusUpdate>, cur: Status) -> Status {
    select(candidates(ups, cur), ups).unwrap().1
}

pub struct StatusSystem;


proof fn lemma_runs_of_shape(items: Seq<(u64, StatusPrio)>)
    requires
        forall|i: int| 0 <= i < items.len() ==> #[trigger] items[i].0 < 3,
    ensures
        forall|j: int|
            0 <= j < runs_of(items).len() ==> #[trigger] runs_of(items)[j].0 < 3 && runs_of(items)[j].1.len()
                > 0,
    decreases items.len(),
{
    if items.len() > 0 {
        let init = items.drop_last();
        assert forall|i: int| 0 <= i < init.len() implies #[trigger] init[i].0 < 3 by {
            assert(init[i] == items[i]);
        }
        lemma_runs_of_shape(init);
        assert(items.last() == items[items.len() - 1]);
        let r = runs_of(init);
        let k = items.last().0;
        let v = items.last().1;
        let out = runs_of(items);
        if r.len() > 0 && r.last().0 == k {
            assert(out == r.update(r.len() - 1, (k, r.last().1.push(v))));
            assert forall|j: int| 0 <= j < out.len() implies #[trigger] out[j].0 < 3 && out[j].1.len() > 0 by {
                if j < r.len() - 1 {
                    assert(out[j] == r[j]);
                }
            }
        } else {
            assert(out == r.push((k, seq![v])));
            assert forall|j: int| 0 <= j < out.len() implies #[trigger] out[j].0 < 3 && out[j].1.len() > 0 by {
                if j < r.len() {
                    assert(out[j] == r[j]);
                }
            }
        }
    }
}

proof fn lemma_prio_changes_keys(ups: Seq<StatusUpdate>)
    ensures
        forall|i: int| 0 <= i < prio_changes(ups).len() ==> #[trigger] prio_changes(ups)[i].0 < 3,
    decreases ups.len(),
{
    if ups.len() > 0 {
        lemma_prio_changes_keys(ups.drop_last());
        let r = prio_changes(ups.drop_last());
        let out = prio_changes(ups);
        assert forall|i: int| 0 <= i < out.len() implies #[trigger] out[i].0 < 3 by {
            if i < r.len() {
                assert(out[i] == r[i]);
            }
        }
    }
}

/// The statuses set outright by `changes`.
fn collect_new(changes: &Vec<StatusUpdate>) -> (r: Vec<Status>)
    ensures
        r@ == new_statuses(changes@),
{
    let mut r: Vec<Status> = Vec::new();
    let mut i: usize = 0;
    while i < changes.len()
        invariant
            i <= changes@.len(),
            r@ == new_statuses(changes@.take(i as int)),
        decreases changes@.len() - i,
    {
        assert(changes@.take(i + 1).drop_last() =~= changes@.take(i as int));
        match changes[i] {
            StatusUpdate::New(status) => r.push(status),
            _ => {},
        }
        i = i + 1;
    }
    assert(changes@.take(i as int) =~= changes@);
    r
}

/// Whether `changes` drops the walking and the auto attack status.
fn collect_cancels(changes: &Vec<StatusUpdate>) -> (r: (bool, bool))
    ensures
        r.0 == cancelled(changes@, StatusID::Walk),
        r.1 == cancelled(changes@, StatusID::AutoAttack),
{
    let mut walk = false;
    let mut attack = false;
    let mut i: usize = 0;
    while i < changes.len()
        invariant
            i <= changes@.len(),
            walk <==> exists|j: int| 0 <= j < i && changes@[j] == StatusUpdate::Cancel(StatusID::Walk),
            attack <==> exists|j: int|
                0 <= j < i && changes@[j] == StatusUpdate::Cancel(StatusID::AutoAttack),
        decreases changes@.len() - i,
    {
        match changes[i] {
            StatusUpdate::Cancel(StatusID::Walk) => walk = true,
            StatusUpdate::Cancel(StatusID::AutoAttack) => attack = true,
            _ => {},
        }
        i = i + 1;
    }
    (walk, attack)
}

/// The priority changes in `changes`, keyed by status.
fn collect_prio_changes(changes: &Vec<StatusUpdate>) -> (r: Vec<(u64, StatusPrio)>)
    ensures
        r@ == prio_changes(changes@),
{
    let mut r: Vec<(u64, StatusPrio)> = Vec::new();
    let mut i: usize = 0;
    while i < changes.len()
        invariant
            i <= changes@.len(),
            r@ == prio_changes(changes@.take(i as int)),
        decreases changes@.len() - i,
    {
        assert(changes@.take(i + 1).drop_last() =~= changes@.take(i as int));
        match changes[i] {
            StatusUpdate::ChangePrio(id, prio) => r.push((id.key(), prio)),
            _ => {},
        }
        i = i + 1;
    }
    assert(changes@.take(i as int) =~= changes@);
    r
}

/// The highest priority of a non-empty run; of equal ones, the last.
fn max_of_run(run: &Vec<StatusPrio>) -> (m: StatusPrio)
    requires
        run@.len() > 0,
    ensures
        m == run_max(run@),
{
    let mut m = run[0];
    let mut i: usize = 1;
    assert(run@.take(1).len() == 1);
    while i < run.len()
        invariant
            1 <= i <= run@.len(),
            m == run_max(run@.take(i as int)),
        decreases run@.len() - i,
    {
        assert(run@.take(i + 1).drop_last() =~= run@.take(i as int));
        if run[i].get_prio() >= m.get_prio() {
            m = run[i];
        }
        i = i + 1;
    }
    assert(run@.take(i as int) =~= run@);
    m
}

/// The priority each status is changed to, by its key.
fn prio_slots(runs: &Vec<(u64, Vec<StatusPrio>)>) -> (slots: Vec<Option<StatusPrio>>)
    requires
        forall|j: int|
            0 <= j < runs@.len() ==> #[trigger] runs@[j].0 < 3 && runs@[j].1@.len() > 0,
    ensures
        slots@.len() == 3,
        forall|k: u64|
            k < 3 ==> #[trigger] slots@[k as int] == (if prio_map(runs_view(runs@)).contains_key(k) {
                Some(prio_map(runs_view(runs@))[k])
            } else {
                None
            }),
{
    let mut slots: Vec<Option<StatusPrio>> = vec![None, None, None];
    let mut j: usize = 0;
    while j < runs.len()
        invariant
            j <= runs@.len(),
            slots@.len() == 3,
            forall|j: int| 0 <= j < runs@.len() ==> #[trigger] runs@[j].0 < 3 && runs@[j].1@.len() > 0,
            forall|k: u64|
                k < 3 ==> #[trigger] slots@[k as int] == (if prio_map(runs_view(runs@.take(j as int))).contains_key(
                    k,
                ) {
                    Some(prio_map(runs_view(runs@.take(j as int)))[k])
                } else {
                    None
                }),
        decreases runs@.len() - j,
    {
        let key = runs[j].0;
        let m = max_of_run(&runs[j].1);
        slots.set(key as usize, Some(m));
        proof {
            let prev = runs_view(runs@.take(j as int));
            let next = runs_view(runs@.take(j + 1));
            assert(next.drop_last() =~= prev);
            assert(next.last() == (key, runs@[j as int].1@));
            assert(prio_map(next) == prio_map(prev).insert(key, run_max(runs@[j as int].1@)));
        }
        j = j + 1;
    }
    assert(runs@.take(j as int) =~= runs@);
    slots
}

impl StatusSystem {
    /// Folds the status changes asked of a character in one tick into the
    /// one change that is carried out.
    ///
    /// For a character that is not in the world yet, the changes must hold
    /// exactly one `New` status, which is the result. For one that is, the
    /// current status (with its priority changed where asked), every status
    /// asked for with `Try`, and idle compete; dropped statuses (`Cancel`)
    /// leave the running; the one pushing hardest wins, ties going to the
    /// status first in the order of statuses; the result sets it as `New`.
    pub fn reduce_changes(
        &self,
        cid: &CharacterID,
        character_exists: bool,
        current: Option<Status>,
        changes: &Vec<StatusUpdate>,
    ) -> (r: Result<Vec<StatusUpdate>, WorldError>)
        ensures
            !character_exists && new_statuses(changes@).len() == 0 ==> r == Err::<Vec<StatusUpdate>, WorldError>(
                WorldError::InvalidReduceMapping(*cid, ComponentID::Status),
            ),
            !character_exists && new_statuses(changes@).len() > 1 ==> r == Err::<Vec<StatusUpdate>, WorldError>(
                WorldError::MultipleUpdateOverrides(*cid, ComponentID::Status),
            ),
            !character_exists && new_statuses(changes@).len() == 1 ==> r is Ok && r->Ok_0@ == seq![
                StatusUpdate::New(new_statuses(changes@)[0]),
            ],
            character_exists && current is None ==> r == Err::<Vec<StatusUpdate>, WorldError>(
                WorldError::MissingCharacterComponent(*cid, ComponentID::Status),
            ),
            character_exists && current is Some ==> r is Ok && r->Ok_0@ == seq![
                StatusUpdate::New(next_status(changes@, current->Some_0)),
            ],
    {
        if !character_exists {
            let news = collect_new(changes);
            if news.len() == 0 {
                return Err(WorldError::InvalidReduceMapping(*cid, ComponentID::Status));
            } else if news.len() > 1 {
                return Err(WorldError::MultipleUpdateOverrides(*cid, ComponentID::Status));
            } else {
                return Ok(vec![StatusUpdate::New(news[0])]);
            }
        }
        let (cancel_walk, cancel_attack) = collect_cancels(changes);
        let entries = collect_prio_changes(changes);
        proof {
            lemma_prio_changes_keys(changes@);
            lemma_runs_of_shape(entries@);
        }
        let ghost ent = entries@;
        let runs = group_runs(entries);
        assert forall|j: int| 0 <= j < runs@.len() implies #[trigger] runs@[j].0 < 3 && runs@[j].1@.len() > 0 by {
            assert(runs_view(runs@).len() == runs@.len());
            assert(runs_view(runs@)[j] == runs_of(ent)[j]);
            assert(runs_view(runs@)[j] == (runs@[j].0, runs@[j].1@));
            assert(runs_of(ent)[j].0 < 3 && runs_of(ent)[j].1.len() > 0);
            assert(runs_view(runs@)[j] == (runs@[j].0, runs@[j].1@));
        }
        let slots = prio_slots(&runs);
        let cur = match current {
            Some(c) => c,
            None => {
                return Err(WorldError::MissingCharacterComponent(*cid, ComponentID::Status));
            },
        };
        let ghost ups = changes@;
        let mut cands: Vec<(StatusPrio, Status)> = Vec::new();
        let mut i: usize = 0;
        while i < changes.len()
            invariant
                i <= changes@.len(),
                ups == changes@,
                cands@ == tries(ups.take(i as int)),
            decreases changes@.len() - i,
        {
            assert(ups.take(i + 1).drop_last() =~= ups.take(i as int));
            match changes[i] {
                StatusUpdate::Try(prio, status) => cands.push((prio, status)),
                _ => {},
            }
            i = i + 1;
        }
        assert(ups.take(i as int) =~= ups);
        let key = cur.id.key();
        let adjusted = match slots[key as usize] {
            Some(p) => (p, Status { id: cur.id, prio: p }),
            None => (cur.prio, cur),
        };
        proof {
            assert(runs_view(runs@) == runs_of(prio_changes(ups)));
            assert(adjusted == adjusted_current(ups, cur));
        }
        cands.push(adjusted);
        let idle = idle_status();
        cands.push((idle.prio, idle));
        assert(cands@ =~= candidates(ups, cur));
        let winner = select_winner(cands, cancel_walk, cancel_attack, Ghost(ups));
        proof {
            assert(cands@ == candidates(ups, cur));
        }
        Ok(vec![StatusUpdate::New(winner)])
    }
}

/// The status that wins among the candidates, as `select` says: the
/// candidates still in the running are filed under their status, the one
/// of each status that pushes hardest (the last of those) is taken, and of
/// these the first in the order of candidates wins.
fn select_winner(
    cands: Vec<(StatusPrio, Status)>,
    cancel_walk: bool,
    cancel_attack: bool,
    Ghost(ups): Ghost<Seq<StatusUpdate>>,
) -> (w: Status)
    requires
        cancel_walk == cancelled(ups, StatusID::Walk),
        cancel_attack == cancelled(ups, StatusID::AutoAttack),
        cands@.len() > 0,
        cands@.last().1.id == StatusID::Idle,
    ensures
        select(cands@, ups) is Some,
        w == (select(cands@, ups)->Some_0).1,
{
    let ghost cs = cands@;
    let keyed = file_candidates(&cands, cancel_walk, cancel_attack, Ghost(ups));
    let ghost kd = keyed@;
    let groups = group_map(keyed);
    let tops = group_tops(&groups);
    proof {
        // idle never leaves the running, so some status is left
        let last = cs.len() - 1;
        assert(!cancelled(ups, cs[last].1.id));
        let m = choose|m: int| 0 <= m < kd.len() && position_of(#[trigger] kd[m]) == last;
        assert(keyed_entry_sound(kd[m], cs, ups));
        lemma_values_under(kd, 0);
        assert(values_under(kd, 0).contains(kd[m].1));
        assert(groups@.contains_key(0));
        assert(tops@.len() > 0);
    }
    let ghost tp = tops@;
    let sorted = sort_by_rank(tops);
    proof {
        broadcast use vstd::seq_lib::group_to_multiset_ensures;

        assert(sorted@.to_multiset().len() == tp.to_multiset().len());
        assert(sorted@.len() == tp.len());
    }
    let (_, winner) = sorted[0];
    proof {
        lemma_sorted_top_wins(cs, ups, kd, groups@, tp, sorted@);
        lemma_first_winner_selected(cs, ups, rank_pos(sorted@[0]));
    }
    winner.1
}

/// The candidates still in the running, each with its position, filed
/// under its status.
fn file_candidates(
    cands: &Vec<(StatusPrio, Status)>,
    cancel_walk: bool,
    cancel_attack: bool,
    Ghost(ups): Ghost<Seq<StatusUpdate>>,
) -> (keyed: Vec<(u64, (usize, (StatusPrio, Status)))>)
    requires
        cancel_walk == cancelled(ups, StatusID::Walk),
        cancel_attack == cancelled(ups, StatusID::AutoAttack),
    ensures
        keyed_sound(keyed@, cands@, ups),
        forall|n: int|
            0 <= n < cands@.len() && !cancelled(ups, #[trigger] cands@[n].1.id) ==> exists|m: int|
                0 <= m < keyed@.len() && position_of(#[trigger] keyed@[m]) == n,
{
    let ghost cs = cands@;
    let mut keyed: Vec<(u64, (usize, (StatusPrio, Status)))> = Vec::new();
    let mut j: usize = 0;
    while j < cands.len()
        invariant
            j <= cs.len(),
            cands@ == cs,
            cancel_walk == cancelled(ups, StatusID::Walk),
            cancel_attack == cancelled(ups, StatusID::AutoAttack),
            keyed_sound(keyed@, cs, ups),
            forall|n: int|
                0 <= n < j && !cancelled(ups, #[trigger] cs[n].1.id) ==> exists|m: int|
                    0 <= m < keyed@.len() && position_of(#[trigger] keyed@[m]) == n,
        decreases cs.len() - j,
    {
        let c = cands[j];
        let dropped = match c.1.id {
            StatusID::Idle => false,
            StatusID::Walk => cancel_walk,
            StatusID::AutoAttack => cancel_attack,
        };
        if !dropped {
            let ghost before = keyed@;
            keyed.push((c.1.id.key(), (j, c)));
            proof {
                assert forall|n: int|
                    0 <= n < j + 1 && !cancelled(ups, #[trigger] cs[n].1.id) implies exists|m: int|
                    0 <= m < keyed@.len() && position_of(#[trigger] keyed@[m]) == n by {
                    if n < j {
                        let m = choose|m: int| 0 <= m < before.len() && position_of(#[trigger] before[m]) == n;
                        assert(keyed@[m] == before[m]);
                    } else {
                        assert(position_of(keyed@[before.len() as int]) == n);
                    }
                }
                assert forall|m: int| 0 <= m < keyed@.len() implies #[trigger] keyed_entry_sound(keyed@[m], cs, ups) by {
                    if m < before.len() {
                        assert(keyed@[m] == before[m]);
                    }
                }
            }
        }
        j = j + 1;
    }
    keyed
}

/// The top of each group, for the statuses that have one.
fn group_tops(groups: &HashMap<u64, Vec<(usize, (StatusPrio, Status))>>) -> (tops: Vec<(usize, (StatusPrio, Status))>)
    requires
        forall|kk: u64| #[trigger] groups@.contains_key(kk) ==> groups@[kk]@.len() > 0,
    ensures
        forall|p: int| 0 <= p < tops@.len() ==> #[trigger] is_group_top(groups@, tops@[p]),
        forall|kk: u64|
            kk < 3 && #[trigger] groups@.contains_key(kk) ==> exists|p: int|
                0 <= p < tops@.len() && #[trigger] is_top(groups@[kk]@, tops@[p]),
{
    broadcast use vstd::std_specs::hash::group_hash_axioms;

    let mut tops: Vec<(usize, (StatusPrio, Status))> = Vec::new();
    let ghost mut owners: Seq<u64> = Seq::empty();
    let mut k: u64 = 0;
    while k < 3
        invariant
            k <= 3,
            forall|kk: u64| #[trigger] groups@.contains_key(kk) ==> groups@[kk]@.len() > 0,
            owners.len() == tops@.len(),
            forall|p: int|
                #![trigger owners[p]]
                0 <= p < tops@.len() ==> owners[p] < 3 && groups@.contains_key(owners[p]) && is_top(
                    groups@[owners[p]]@,
                    tops@[p],
                ),
            forall|kk: u64| kk < k && #[trigger] groups@.contains_key(kk) ==> owners.contains(kk),
        decreases 3 - k,
    {
        match groups.get(&k) {
            Some(g) => {
                let ghost old_tops = tops@;
                let t = top_of(g);
                tops.push(t);
                proof {
                    let old_owners = owners;
                    owners = owners.push(k);
                    assert forall|p: int| #![trigger owners[p]] 0 <= p < tops@.len() implies owners[p] < 3 && groups@.contains_key(owners[p])
                        && is_top(groups@[owners[p]]@, tops@[p]) by {
                        if p < old_tops.len() {
                            assert(tops@[p] == old_tops[p]);
                            assert(owners[p] == old_owners[p]);
                        }
                    }
                    assert forall|kk: u64| kk < k + 1 && #[trigger] groups@.contains_key(kk) implies owners.contains(kk) by {
                        if kk < k {
                            let p = choose|p: int| 0 <= p < old_owners.len() && old_owners[p] == kk;
                            assert(owners[p] == kk);
                        } else {
                            assert(owners[owners.len() - 1] == kk);
                        }
                    }
                }
            },
            None => {},
        }
        k = k + 1;
    }
    proof {
        assert forall|p: int| 0 <= p < tops@.len() implies #[trigger] is_group_top(groups@, tops@[p]) by {
            assert(owners[p] < 3);
            assert(is_top(groups@[owners[p]]@, tops@[p]));
        }
        assert forall|kk: u64| kk < 3 && #[trigger] groups@.contains_key(kk) implies exists|p: int|
            0 <= p < tops@.len() && #[trigger] is_top(groups@[kk]@, tops@[p]) by {
            assert(owners.contains(kk));
            let p = choose|p: int| 0 <= p < owners.len() && owners[p] == kk;
            assert(is_top(groups@[owners[p]]@, tops@[p]));
        }
    }
    tops
}

/// `t` is the top of the group of one of the statuses.
pub open spec fn is_group_top(gm: Map<u64, Vec<(usize, (StatusPrio, Status))>>, t: (usize, (StatusPrio, Status))) -> bool {
    exists|kk: u64| kk < 3 && gm.contains_key(kk) && #[trigger] is_top(gm[kk]@, t)
}

/// The position of a candidate among the candidates.
pub open spec fn rank_pos(r: (usize, (StatusPrio, Status))) -> int {
    r.0 as int
}

/// The position of a filed candidate among the candidates.
pub open spec fn position_of(e: (u64, (usize, (StatusPrio, Status)))) -> int {
    rank_pos(e.1)
}

/// A filed candidate is the candidate at its position, still in the
/// running, filed under its status.
pub open spec fn keyed_entry_sound(
    e: (u64, (usize, (StatusPrio, Status))),
    cs: Seq<(StatusPrio, Status)>,
    ups: Seq<StatusUpdate>,
) -> bool {
    &&& 0 <= position_of(e) < cs.len()
    &&& (e.1).1 == cs[position_of(e)]
    &&& !cancelled(ups, ((e.1).1).1.id)
    &&& e.0 == status_key(((e.1).1).1.id)
}

/// Every filed candidate is sound.
pub open spec fn keyed_sound(
    keyed: Seq<(u64, (usize, (StatusPrio, Status)))>,
    cs: Seq<(StatusPrio, Status)>,
    ups: Seq<StatusUpdate>,
) -> bool {
    forall|m: int| 0 <= m < keyed.len() ==> #[trigger] keyed_entry_sound(keyed[m], cs, ups)
}

/// `a` comes after `b` in the order of a group: it pushes harder, or as
/// hard and stands later among the candidates.
pub open spec fn higher(a: (usize, (StatusPrio, Status)), b: (usize, (StatusPrio, Status))) -> bool {
    prio_value((a.1).0) > prio_value((b.1).0) || (prio_value((a.1).0) == prio_value((b.1).0) && a.0 > b.0)
}

/// `t` is the last of the candidates of a group that push hardest.
pub open spec fn is_top(g: Seq<(usize, (StatusPrio, Status))>, t: (usize, (StatusPrio, Status))) -> bool {
    g.contains(t) && forall|v: (usize, (StatusPrio, Status))| g.contains(v) ==> !higher(v, t)
}

/// The last of the candidates of a non-empty group that push hardest.
fn top_of(g: &Vec<(usize, (StatusPrio, Status))>) -> (t: (usize, (StatusPrio, Status)))
    requires
        g@.len() > 0,
    ensures
        is_top(g@, t),
{
    let mut t = g[0];
    let ghost mut ti: int = 0;
    let mut i: usize = 1;
    while i < g.len()
        invariant
            1 <= i <= g@.len(),
            0 <= ti < i,
            g@[ti] == t,
            forall|n: int| 0 <= n < i ==> !higher(#[trigger] g@[n], t),
        decreases g@.len() - i,
    {
        let v = g[i];
        let (vp, tp) = ((v.1).0.get_prio(), (t.1).0.get_prio());
        if vp > tp || (vp == tp && v.0 > t.0) {
            t = v;
            proof {
                ti = i as int;
            }
        }
        i = i + 1;
    }
    proof {
        assert(g@.contains(t));
        assert forall|v: (usize, (StatusPrio, Status))| g@.contains(v) implies !higher(v, t) by {
            let n = choose|n: int| 0 <= n < g@.len() && g@[n] == v;
            assert(!higher(g@[n], t));
        }
    }
    t
}

/// `a` ranks before `b`: it pushes harder, or as hard and comes first in
/// the order of statuses.
pub open spec fn ranks_before(a: (StatusPrio, Status), b: (StatusPrio, Status)) -> bool {
    prio_value(a.0) > prio_value(b.0) || (prio_value(a.0) == prio_value(b.0) && status_key(a.1.id) < status_key(
        b.1.id,
    ))
}

/// `a` and `b` push as hard and are the same status.
pub open spec fn same_rank(a: (StatusPrio, Status), b: (StatusPrio, Status)) -> bool {
    prio_value(a.0) == prio_value(b.0) && status_key(a.1.id) == status_key(b.1.id)
}

/// The candidate at `j` wins: it is in the running, none in the running
/// ranks before it, and none after it ranks the same.
pub open spec fn wins_at(cands: Seq<(StatusPrio, Status)>, ups: Seq<StatusUpdate>, j: int) -> bool {
    &&& 0 <= j < cands.len()
    &&& !cancelled(ups, cands[j].1.id)
    &&& forall|i: int|
        0 <= i < cands.len() && !cancelled(ups, #[trigger] cands[i].1.id) ==> !ranks_before(cands[i], cands[j])
            && (i > j ==> !same_rank(cands[i], cands[j]))
}

/// A winning candidate is the one that `select` picks.
proof fn lemma_first_winner_selected(cands: Seq<(StatusPrio, Status)>, ups: Seq<StatusUpdate>, j: int)
    requires
        wins_at(cands, ups, j),
    ensures
        select(cands, ups) == Some(cands[j]),
{
    lemma_select_wins(cands, ups);
    lemma_select_best(cands, ups);
    assert(!cancelled(ups, cands[j].1.id));
    let w = select(cands, ups)->Some_0;
    let jw = choose|jw: int| wins_at(cands, ups, jw) && cands[jw] == w;
    lemma_winner_unique(cands, ups, jw, j);
}

proof fn lemma_winner_unique(cands: Seq<(StatusPrio, Status)>, ups: Seq<StatusUpdate>, j1: int, j2: int)
    requires
        wins_at(cands, ups, j1),
        wins_at(cands, ups, j2),
    ensures
        j1 == j2,
{
    assert(!ranks_before(cands[j1], cands[j2]));
    assert(!ranks_before(cands[j2], cands[j1]));
    if j1 < j2 {
        assert(!same_rank(cands[j2], cands[j1]));
    } else if j2 < j1 {
        assert(!same_rank(cands[j1], cands[j2]));
    }
}

proof fn lemma_select_wins(cands: Seq<(StatusPrio, Status)>, ups: Seq<StatusUpdate>)
    ensures
        select(cands, ups) is Some ==> exists|j: int| wins_at(cands, ups, j) && cands[j] == select(cands, ups)->Some_0,
    decreases cands.len(),
{
    if cands.len() > 0 {
        let init = cands.drop_last();
        let n = cands.len() - 1;
        let c = cands.last();
        assert(cands[n] == c);
        lemma_select_wins(init, ups);
        lemma_select_best(init, ups);
        assert forall|i: int| 0 <= i < init.len() implies #[trigger] init[i] == cands[i] by {}
        if cancelled(ups, c.1.id) {
            if select(init, ups) is Some {
                let j = choose|j: int| wins_at(init, ups, j) && init[j] == select(init, ups)->Some_0;
                assert forall|i: int| 0 <= i < cands.len() && !cancelled(ups, #[trigger] cands[i].1.id) implies !ranks_before(cands[i], cands[j])
                    && (i > j ==> !same_rank(cands[i], cands[j])) by {
                    assert(!cancelled(ups, init[i].1.id));
                }
                assert(wins_at(cands, ups, j));
            }
        } else {
            match select(init, ups) {
                None => {
                    assert forall|i: int| 0 <= i < cands.len() && !cancelled(ups, #[trigger] cands[i].1.id) implies !ranks_before(cands[i], cands[n])
                        && (i > n ==> !same_rank(cands[i], cands[n])) by {
                        if i < n {
                            assert(!cancelled(ups, init[i].1.id));
                        }
                    }
                    assert(wins_at(cands, ups, n));
                },
                Some(b) => {
                    let j = choose|j: int| wins_at(init, ups, j) && init[j] == b;
                    if beats(c, b) {
                        assert forall|i: int| 0 <= i < cands.len() && !cancelled(ups, #[trigger] cands[i].1.id) implies !ranks_before(cands[i], cands[n])
                            && (i > n ==> !same_rank(cands[i], cands[n])) by {
                            if i < n {
                                assert(!cancelled(ups, init[i].1.id));
                                assert(!ranks_before(init[i], init[j]));
                            }
                        }
                        assert(wins_at(cands, ups, n));
                    } else {
                        assert forall|i: int| 0 <= i < cands.len() && !cancelled(ups, #[trigger] cands[i].1.id) implies !ranks_before(cands[i], cands[j])
                            && (i > j ==> !same_rank(cands[i], cands[j])) by {
                            if i < n {
                                assert(!cancelled(ups, init[i].1.id));
                            }
                        }
                        assert(wins_at(cands, ups, j));
                    }
                },
            }
        }
    }
}

/// The first of the sorted tops of the groups is the winning candidate.
proof fn lemma_sorted_top_wins(
    cs: Seq<(StatusPrio, Status)>,
    ups: Seq<StatusUpdate>,
    kd: Seq<(u64, (usize, (StatusPrio, Status)))>,
    gm: Map<u64, Vec<(usize, (StatusPrio, Status))>>,
    tops: Seq<(usize, (StatusPrio, Status))>,
    sorted: Seq<(usize, (StatusPrio, Status))>,
)
    requires
        keyed_sound(kd, cs, ups),
        forall|n: int|
            0 <= n < cs.len() && !cancelled(ups, #[trigger] cs[n].1.id) ==> exists|m: int|
                0 <= m < kd.len() && position_of(#[trigger] kd[m]) == n,
        forall|kk: u64| #[trigger] gm.contains_key(kk) <==> values_under(kd, kk).len() > 0,
        forall|kk: u64| gm.contains_key(kk) ==> #[trigger] gm[kk]@ == values_under(kd, kk),
        forall|p: int| 0 <= p < tops.len() ==> #[trigger] is_group_top(gm, tops[p]),
        forall|kk: u64|
            kk < 3 && #[trigger] gm.contains_key(kk) ==> exists|p: int| 0 <= p < tops.len() && #[trigger] is_top(gm[kk]@, tops[p]),
        sorted.to_multiset() == tops.to_multiset(),
        forall|i: int, j: int| 0 <= i < j < sorted.len() ==> !ranks_before(#[trigger] sorted[j].1, #[trigger] sorted[i].1),
        sorted.len() > 0,
    ensures
        0 <= rank_pos(sorted[0]) < cs.len(),
        sorted[0].1 == cs[rank_pos(sorted[0])],
        wins_at(cs, ups, rank_pos(sorted[0])),
{
    broadcast use vstd::seq_lib::group_to_multiset_ensures;

    let s0 = sorted[0];
    assert(sorted.contains(s0));
    assert(sorted.to_multiset().count(s0) > 0);
    assert(tops.to_multiset().count(s0) > 0);
    assert(tops.contains(s0));
    let p0 = choose|p: int| 0 <= p < tops.len() && tops[p] == s0;
    assert(is_group_top(gm, tops[p0]));
    let k0 = choose|kk: u64| kk < 3 && gm.contains_key(kk) && #[trigger] is_top(gm[kk]@, tops[p0]);
    lemma_values_under(kd, k0);
    assert(gm[k0]@.contains(s0));
    let m0 = choose|m: int| 0 <= m < kd.len() && #[trigger] kd[m] == (k0, s0);
    assert(keyed_entry_sound(kd[m0], cs, ups));
    let i0 = s0.0 as int;
    assert forall|i: int| 0 <= i < cs.len() && !cancelled(ups, #[trigger] cs[i].1.id) implies !ranks_before(cs[i], cs[i0])
        && (i > i0 ==> !same_rank(cs[i], cs[i0])) by {
        let m = choose|m: int| 0 <= m < kd.len() && position_of(#[trigger] kd[m]) == i;
        let e = kd[m];
        assert(keyed_entry_sound(e, cs, ups));
        let k1 = e.0;
        lemma_values_under(kd, k1);
        assert(values_under(kd, k1).contains(e.1));
        assert(gm.contains_key(k1));
        assert(k1 < 3);
        let p = choose|p: int| 0 <= p < tops.len() && #[trigger] is_top(gm[k1]@, tops[p]);
        let t = tops[p];
        assert(gm[k1]@.contains(e.1));
        assert(!higher(e.1, t));
        assert(gm[k1]@.contains(t));
        let m2 = choose|m2: int| 0 <= m2 < kd.len() && #[trigger] kd[m2] == (k1, t);
        assert(keyed_entry_sound(kd[m2], cs, ups));
        assert(tops.contains(t));
        assert(tops.to_multiset().count(t) > 0);
        assert(sorted.to_multiset().count(t) > 0);
        assert(sorted.contains(t));
        let q = choose|q: int| 0 <= q < sorted.len() && sorted[q] == t;
        if q > 0 {
            assert(!ranks_before(sorted[q].1, sorted[0].1));
        }
        assert(!ranks_before(t.1, s0.1));
        if i > i0 && same_rank(cs[i], cs[i0]) {
            assert(k1 == k0);
            assert(gm[k0]@.contains(e.1));
            assert(!higher(e.1, s0));
        }
    }
}

proof fn lemma_select_best(cands: Seq<(StatusPrio, Status)>, ups: Seq<StatusUpdate>)
    ensures
        select(cands, ups) is Some <==> exists|i: int| 0 <= i < cands.len() && !cancelled(ups, #[trigger] cands[i].1.id),
        select(cands, ups) is Some ==> {
            let w = select(cands, ups)->Some_0;
            &&& cands.contains(w)
            &&& !cancelled(ups, w.1.id)
            &&& forall|i: int|
                0 <= i < cands.len() && !cancelled(ups, #[trigger] cands[i].1.id) ==> prio_value(cands[i].0)
                    <= prio_value(w.0)
        },
    decreases cands.len(),
{
    if cands.len() > 0 {
        let init = cands.drop_last();
        lemma_select_best(init, ups);
        let c = cands.last();
        assert forall|i: int| 0 <= i < init.len() implies #[trigger] init[i] == cands[i] by {}
        if select(init, ups) is Some {
            let b = select(init, ups)->Some_0;
            let j = choose|j: int| 0 <= j < init.len() && init[j] == b;
            assert(cands[j] == b);
        }
        assert(cands[cands.len() - 1] == c);
        if (exists|i: int| 0 <= i < cands.len() && !cancelled(ups, #[trigger] cands[i].1.id)) {
            let i = choose|i: int| 0 <= i < cands.len() && !cancelled(ups, #[trigger] cands[i].1.id);
            if i < init.len() {
                assert(!cancelled(ups, init[i].1.id));
            }
        }
        let r = select(cands, ups);
        if r is Some {
            let w = r->Some_0;
            assert forall|i: int|
                0 <= i < cands.len() && !cancelled(ups, #[trigger] cands[i].1.id) implies prio_value(cands[i].0)
                <= prio_value(w.0) by {
                if i < init.len() {
                    assert(!cancelled(ups, init[i].1.id));
                    assert(select(init, ups) is Some);
                }
            }
        }
    }
}

/// The status a character that exists moves to is never one that was
/// dropped, and no status still in the running pushes harder than the one
/// that won; since idle can never be dropped, there is always a winner.
pub proof fn lemma_next_status_wins(ups: Seq<StatusUpdate>, cur: Status)
    ensures
        select(candidates(ups, cur), ups) is Some,
        !cancelled(ups, next_status(ups, cur).id),
        candidates(ups, cur).contains(select(candidates(ups, cur), ups)->Some_0),
        forall|i: int|
            0 <= i < candidates(ups, cur).len() && !cancelled(ups, #[trigger] candidates(ups, cur)[i].1.id)
                ==> prio_value(candidates(ups, cur)[i].0) <= prio_value(
                select(candidates(ups, cur), ups)->Some_0.0,
            ),
{
    let c = candidates(ups, cur);
    assert(c[c.len() - 1] == (StatusPrio::Lowest, spec_idle_status()));
    assert(!cancelled(ups, c[c.len() - 1].1.id));
    lemma_select_best(c, ups);
}

/// The place of a priority in the order in which the priorities are
/// declared, weakest first.
pub open spec fn prio_place(p: StatusPrio) -> int {
    match p {
        StatusPrio::Impossible => 0,
        StatusPrio::Lowest => 1,
        StatusPrio::Ability => 2,
        StatusPrio::AbilityOverride => 3,
        StatusPrio::AbilityPrioritized => 4,
        StatusPrio::Stunned => 5,
    }
}

/// Priorities rank in the order in which they are declared: one declared
/// later always pushes strictly harder.
pub proof fn lemma_prio_value_follows_declaration(a: StatusPrio, b: StatusPrio)
    ensures
        prio_place(a) < prio_place(b) <==> prio_value(a) < prio_value(b),
        prio_place(a) == prio_place(b) <==> a == b,
{
}

proof fn lemma_tries_come_from_requests(ups: Seq<StatusUpdate>)
    ensures
        forall|i: int|
            0 <= i < tries(ups).len() ==> exists|j: int|
                0 <= j < ups.len() && ups[j] == StatusUpdate::Try(#[trigger] tries(ups)[i].0, tries(ups)[i].1),
    decreases ups.len(),
{
    if ups.len() > 0 {
        let init = ups.drop_last();
        lemma_tries_come_from_requests(init);
        assert forall|i: int| 0 <= i < tries(ups).len() implies exists|j: int|
            0 <= j < ups.len() && ups[j] == StatusUpdate::Try(#[trigger] tries(ups)[i].0, tries(ups)[i].1) by {
            if i < tries(init).len() {
                assert(tries(ups)[i] == tries(init)[i]);
                let j = choose|j: int| 0 <= j < init.len() && init[j] == StatusUpdate::Try(#[trigger] tries(init)[i].0, tries(init)[i].1);
                assert(ups[j] == init[j]);
            } else {
                assert(ups[ups.len() - 1] == ups.last());
            }
        }
    }
}

/// Some request in `ups` changes the priority of a status with key `e.0` to
/// `e.1`.
spec fn prio_change_source(ups: Seq<StatusUpdate>, e: (u64, StatusPrio)) -> bool {
    exists|j: int| 0 <= j < ups.len() && #[trigger] ups[j] is ChangePrio && status_key(ups[j]->ChangePrio_0) == e.0
}

proof fn lemma_prio_change_keys_come_from_requests(ups: Seq<StatusUpdate>)
    ensures
        forall|i: int| 0 <= i < prio_changes(ups).len() ==> #[trigger] prio_change_source(ups, prio_changes(ups)[i]),
    decreases ups.len(),
{
    if ups.len() > 0 {
        let init = ups.drop_last();
        lemma_prio_change_keys_come_from_requests(init);
        assert forall|i: int| 0 <= i < prio_changes(ups).len() implies #[trigger] prio_change_source(ups, prio_changes(ups)[i]) by {
            if i < prio_changes(init).len() {
                assert(prio_changes(ups)[i] == prio_changes(init)[i]);
                assert(prio_change_source(init, prio_changes(init)[i]));
                let j = choose|j: int| 0 <= j < init.len() && #[trigger] init[j] is ChangePrio && status_key(init[j]->ChangePrio_0) == prio_changes(init)[i].0;
                assert(ups[j] == init[j]);
            } else {
                assert(ups[ups.len() - 1] == ups.last());
            }
        }
    }
}

proof fn lemma_run_keys_come_from_items(items: Seq<(u64, StatusPrio)>)
    ensures
        forall|r: int|
            0 <= r < runs_of(items).len() ==> exists|i: int| 0 <= i < items.len() && items[i].0 == #[trigger] runs_of(items)[r].0,
    decreases items.len(),
{
    if items.len() > 0 {
        let init = items.drop_last();
        lemma_run_keys_come_from_items(init);
        let prev = runs_of(init);
        let k = items.last().0;
        assert(items[items.len() - 1] == items.last());
        assert forall|r: int| 0 <= r < runs_of(items).len() implies exists|i: int|
            0 <= i < items.len() && items[i].0 == #[trigger] runs_of(items)[r].0 by {
            if r < prev.len() && runs_of(items)[r] == prev[r] {
                let i = choose|i: int| 0 <= i < init.len() && init[i].0 == #[trigger] prev[r].0;
                assert(items[i] == init[i]);
            } else {
                assert(runs_of(items)[r].0 == k);
            }
        }
    }
}

proof fn lemma_prio_map_keys(runs: Seq<(u64, Seq<StatusPrio>)>, k: u64)
    requires
        prio_map(runs).contains_key(k),
    ensures
        exists|r: int| 0 <= r < runs.len() && #[trigger] runs[r].0 == k,
    decreases runs.len(),
{
    if runs.last().0 != k {
        lemma_prio_map_keys(runs.drop_last(), k);
        let r = choose|r: int| 0 <= r < runs.drop_last().len() && #[trigger] runs.drop_last()[r].0 == k;
        assert(runs[r] == runs.drop_last()[r]);
    } else {
        assert(runs[runs.len() - 1].0 == k);
    }
}

/// A status held at the prioritized priority stays the status against any
/// request that pushes no harder than an override, as long as nothing
/// drops it or changes its priority: a command arriving while an attack is
/// being cast does not interrupt it.
pub proof fn lemma_prioritized_status_holds(ups: Seq<StatusUpdate>, cur: Status)
    requires
        cur.prio == StatusPrio::AbilityPrioritized,
        !cancelled(ups, cur.id),
        forall|j: int| 0 <= j < ups.len() && #[trigger] ups[j] is ChangePrio ==> ups[j]->ChangePrio_0 != cur.id,
        forall|j: int|
            0 <= j < ups.len() && #[trigger] ups[j] is Try ==> prio_place(ups[j]->Try_0) <= prio_place(
                StatusPrio::AbilityOverride,
            ),
    ensures
        next_status(ups, cur) == cur,
{
    let c = candidates(ups, cur);
    let t = tries(ups);
    let n = c.len();
    lemma_next_status_wins(ups, cur);
    lemma_tries_come_from_requests(ups);
    lemma_prio_change_keys_come_from_requests(ups);
    lemma_run_keys_come_from_items(prio_changes(ups));
    let m = prio_map(runs_of(prio_changes(ups)));
    if m.contains_key(status_key(cur.id)) {
        lemma_prio_map_keys(runs_of(prio_changes(ups)), status_key(cur.id));
        let r = choose|r: int| 0 <= r < runs_of(prio_changes(ups)).len() && #[trigger] runs_of(prio_changes(ups))[r].0
            == status_key(cur.id);
        let i = choose|i: int|
            0 <= i < prio_changes(ups).len() && prio_changes(ups)[i].0 == #[trigger] runs_of(prio_changes(ups))[r].0;
        assert(prio_change_source(ups, prio_changes(ups)[i]));
        let j = choose|j: int| 0 <= j < ups.len() && #[trigger] ups[j] is ChangePrio && status_key(ups[j]->ChangePrio_0) == prio_changes(ups)[i].0;
        assert(ups[j]->ChangePrio_0 == cur.id);
    }
    assert(adjusted_current(ups, cur) == (cur.prio, cur));
    assert(c[n - 2] == (cur.prio, cur));
    assert(!cancelled(ups, c[n - 2].1.id));
    let w = select(c, ups)->Some_0;
    assert(prio_value(w.0) >= 4);
    let k = choose|k: int| 0 <= k < c.len() && c[k] == w;
    if k < t.len() {
        assert(c[k] == t[k]);
        let j = choose|j: int| 0 <= j < ups.len() && ups[j] == StatusUpdate::Try(#[trigger] t[k].0, t[k].1);
        lemma_prio_value_follows_declaration(t[k].0, StatusPrio::AbilityOverride);
        assert(ups[j] is Try);
        assert(prio_place(t[k].0) <= prio_place(StatusPrio::AbilityOverride));
        assert(false);
    } else if k == n - 1 {
        assert(c[n - 1] == (StatusPrio::Lowest, spec_idle_status()));
        assert(false);
    }
    assert(k == n - 2);
}

/// The statuses in the order in which they are declared.
pub open spec fn declared_status_ids() -> Seq<StatusID> {
    seq![StatusID::Idle, StatusID::Walk, StatusID::AutoAttack]
}

/// Statuses come in the order in which they are declared: each one's place
/// in the order of statuses is its place in the declaration, and every
/// status has one.
pub proof fn lemma_status_order_follows_declaration(id: StatusID)
    ensures
        declared_status_ids().contains(id),
        forall|i: int| 0 <= i < declared_status_ids().len() ==> status_key(#[trigger] declared_status_ids()[i]) == i,
{
    let d = declared_status_ids();
    assert(d[0] == StatusID::Idle && d[1] == StatusID::Walk && d[2] == StatusID::AutoAttack);
    assert(d[status_key(id) as int] == id);
}

/// The status a character that exists moves to is the candidate that
/// wins: it is still in the running, no candidate in the running pushes
/// harder or as hard from a status earlier in the order of statuses, and no
/// later request for the same status pushes as hard.
pub proof fn lemma_next_status_is_the_winner(ups: Seq<StatusUpdate>, cur: Status)
    ensures
        exists|j: int|
            #[trigger] wins_at(candidates(ups, cur), ups, j) && candidates(ups, cur)[j].1 == next_status(ups, cur),
{
    lemma_next_status_wins(ups, cur);
    lemma_select_wins(candidates(ups, cur), ups);
}

/// The priority a run of priority changes comes to is one of those asked,
/// and none asked pushes harder; of those that push as hard, it is the
/// last.
pub proof fn lemma_run_max_is_highest(run: Seq<StatusPrio>)
    requires
        run.len() > 0,
    ensures
        exists|i: int|
            0 <= i < run.len() && run[i] == run_max(run) && forall|j: int|
                i < j < run.len() ==> prio_value(#[trigger] run[j]) < prio_value(run_max(run)),
        forall|j: int| 0 <= j < run.len() ==> prio_value(#[trigger] run[j]) <= prio_value(run_max(run)),
    decreases run.len(),
{
    if run.len() == 1 {
        assert(run[0] == run_max(run));
    } else {
        let init = run.drop_last();
        lemma_run_max_is_highest(init);
        let n = run.len() - 1;
        assert(run[n] == run.last());
        assert forall|j: int| 0 <= j < init.len() implies #[trigger] init[j] == run[j] by {}
        if prio_value(run.last()) >= prio_value(run_max(init)) {
            assert(run_max(run) == run[n]);
            assert forall|j: int| 0 <= j < run.len() implies prio_value(#[trigger] run[j]) <= prio_value(run_max(run)) by {
                if j < n {
                    assert(prio_value(init[j]) <= prio_value(run_max(init)));
                }
            }
        } else {
            let i = choose|i: int|
                0 <= i < init.len() && init[i] == run_max(init) && forall|j: int|
                    i < j < init.len() ==> prio_value(#[trigger] init[j]) < prio_value(run_max(init));
            assert(run[i] == run_max(run));
            assert forall|j: int| i < j < run.len() implies prio_value(#[trigger] run[j]) < prio_value(run_max(run)) by {
                if j < n {
                    assert(prio_value(init[j]) < prio_value(run_max(init)));
                }
            }
            assert forall|j: int| 0 <= j < run.len() implies prio_value(#[trigger] run[j]) <= prio_value(run_max(run)) by {
                if j < n {
                    assert(prio_value(init[j]) <= prio_value(run_max(init)));
                }
            }
        }
    }
}

} // verus!
