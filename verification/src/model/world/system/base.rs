use vstd::prelude::*;

use crate::model::world::character::CharacterID;
use crate::model::world::commands::Priority;
use crate::model::world::component::ComponentID;
use crate::model::world::WorldError;

verus! {

/// Which way a character faces.
#[derive(Clone, Copy, Debug, PartialEq, Eq, Structural, PartialOrd, Ord, Hash)]
pub enum CharacterFlip {
    Left,
    Right,
}

impl CharacterFlip {
    /// Two facings asked at once: left only if both ask left.
    pub open spec fn spec_combine(self, other: CharacterFlip) -> CharacterFlip {
        if self == CharacterFlip::Left && other == CharacterFlip::Left {
            CharacterFlip::Left
        } else {
            CharacterFlip::Right
        }
    }

    pub fn combine(&self, other: &CharacterFlip) -> (r: CharacterFlip)
        ensures
            r == self.spec_combine(*other),
    {
        match (*self, *other) {
            (CharacterFlip::Left, CharacterFlip::Left) => CharacterFlip::Left,
            (CharacterFlip::Right, CharacterFlip::Right) => CharacterFlip::Right,
            (CharacterFlip::Right, CharacterFlip::Left) => CharacterFlip::Right,
            (CharacterFlip::Left, CharacterFlip::Right) => CharacterFlip::Right,
        }
    }
}

/// What a change to a base component does: make the component anew, turn
/// the character at a priority, or move it at a priority (where it moves to
/// stays with the caller).
#[derive(Clone, Copy, Debug, PartialEq, Eq, Structural)]
pub enum BaseChange {
    New,
    Flip(Priority, CharacterFlip),
    Move(Priority),
}

/// The rank a priority goes by; a higher rank wins.
pub open spec fn priority_rank(p: Priority) -> int {
    match p {
        Priority::Walk => 0,
        Priority::Cast => 1,
        Priority::Stun => 2,
    }
}

fn rank(p: Priority) -> (r: u8)
    ensures
        r == priority_rank(p),
{
    match p {
        Priority::Walk => 0,
        Priority::Cast => 1,
        Priority::Stun => 2,
    }
}

/// How many of `changes` make the component anew.
pub open spec fn new_count(changes: Seq<BaseChange>) -> nat
    decreases changes.len(),
{
    if changes.len() == 0 {
        0
    } else {
        new_count(changes.drop_last()) + if changes.last() is New {
            1nat
        } else {
            0nat
        }
    }
}

/// Whether `i` is the first position of a change that makes the component
/// anew.
pub open spec fn is_first_new(changes: Seq<BaseChange>, i: int) -> bool {
    &&& 0 <= i < changes.len()
    &&& changes[i] is New
    &&& forall|j: int| 0 <= j < i ==> !(changes[j] is New)
}

/// The first position of a change that makes the component anew.
pub open spec fn first_new(changes: Seq<BaseChange>) -> int {
    choose|i: int| is_first_new(changes, i)
}

proof fn lemma_first_new(changes: Seq<BaseChange>, i: int)
    requires
        is_first_new(changes, i),
    ensures
        first_new(changes) == i,
{
    let c = first_new(changes);
    assert(is_first_new(changes, c));
    if c < i {
        assert(!(changes[c] is New));
    } else if i < c {
        assert(!(changes[i] is New));
    }
}

/// The turn that stands after `changes`, taken in order: a turn at a higher
/// priority replaces the one so far, one at the same priority is combined
/// with it, one at a lower priority is dropped.
pub open spec fn reduced_flip(changes: Seq<BaseChange>) -> Option<(Priority, CharacterFlip)>
    decreases changes.len(),
{
    if changes.len() == 0 {
        None
    } else {
        let prev = reduced_flip(changes.drop_last());
        match changes.last() {
            BaseChange::Flip(p, f) => match prev {
                None => Some((p, f)),
                Some((q, g)) => if priority_rank(p) > priority_rank(q) {
                    Some((p, f))
                } else if priority_rank(p) == priority_rank(q) {
                    Some((q, g.spec_combine(f)))
                } else {
                    prev
                },
            },
            _ => prev,
        }
    }
}

/// The moves that stand after `changes`, by position, with their priority:
/// a move at a higher priority replaces those so far, one at the same
/// priority joins them (to be combined by the caller, in order), one at a
/// lower priority is dropped.
pub open spec fn reduced_moves(changes: Seq<BaseChange>) -> Option<(Priority, Seq<int>)>
    decreases changes.len(),
{
    if changes.len() == 0 {
        None
    } else {
        let prev = reduced_moves(changes.drop_last());
        let i = changes.len() - 1;
        match changes.last() {
            BaseChange::Move(p) => match prev {
                None => Some((p, seq![i])),
                Some((q, s)) => if priority_rank(p) > priority_rank(q) {
                    Some((p, seq![i]))
                } else if priority_rank(p) == priority_rank(q) {
                    Some((q, s.push(i)))
                } else {
                    prev
                },
            },
            _ => prev,
        }
    }
}

/// The kept turn has the highest priority of all turns and is left only if
/// every turn at that priority is left; the kept moves are exactly the moves
/// at the highest priority of all moves, in order.
pub proof fn lemma_reduction_keeps_highest(changes: Seq<BaseChange>)
    ensures
        reduced_flip(changes) is None <==> forall|i: int| 0 <= i < changes.len() ==> !(changes[i] is Flip),
        reduced_flip(changes) matches Some((p, f)) ==> {
            &&& forall|i: int| 0 <= i < changes.len() && changes[i] is Flip ==> priority_rank(changes[i]->Flip_0)
                <= priority_rank(p)
            &&& exists|i: int| 0 <= i < changes.len() && changes[i] is Flip && changes[i]->Flip_0 == p
            &&& (f == CharacterFlip::Left <==> forall|i: int|
                0 <= i < changes.len() && changes[i] is Flip && changes[i]->Flip_0 == p ==> changes[i]->Flip_1
                    == CharacterFlip::Left)
        },
        reduced_moves(changes) is None <==> forall|i: int| 0 <= i < changes.len() ==> !(changes[i] is Move),
        reduced_moves(changes) matches Some((p, s)) ==> {
            &&& forall|i: int| 0 <= i < changes.len() && changes[i] is Move ==> priority_rank(changes[i]->Move_0)
                <= priority_rank(p)
            &&& s.len() > 0
            &&& forall|k: int| 0 <= k < s.len() ==> 0 <= #[trigger] s[k] < changes.len()
            &&& forall|k: int, l: int| 0 <= k < l < s.len() ==> s[k] < s[l]
            &&& forall|i: int| 0 <= i < changes.len() ==> (s.contains(i) <==> (changes[i] is Move
                && changes[i]->Move_0 == p))
        },
    decreases changes.len(),
{
    if changes.len() > 0 {
        let init = changes.drop_last();
        let n = changes.len() - 1;
        lemma_reduction_keeps_highest(init);
        assert forall|i: int| 0 <= i < init.len() implies init[i] == changes[i] by {}
        assert(changes[n] == changes.last());
        if let BaseChange::Move(pl) = changes.last() {
            match reduced_moves(init) {
                None => {
                    let s = seq![n];
                    assert(reduced_moves(changes) == Some((pl, s)));
                    assert forall|i: int| 0 <= i < changes.len() implies (s.contains(i) <==> (changes[i] is Move
                        && changes[i]->Move_0 == pl)) by {
                        if s.contains(i) {
                            let k = choose|k: int| 0 <= k < s.len() && s[k] == i;
                            assert(k == 0);
                        }
                        if i == n {
                            assert(s[0] == n);
                        }
                    }
                },
                Some((q, t)) => {
                    if priority_rank(pl) > priority_rank(q) {
                        let s = seq![n];
                        assert(reduced_moves(changes) == Some((pl, s)));
                        assert forall|i: int| 0 <= i < changes.len() implies (s.contains(i) <==> (
                        changes[i] is Move && changes[i]->Move_0 == pl)) by {
                            if s.contains(i) {
                                let k = choose|k: int| 0 <= k < s.len() && s[k] == i;
                                assert(k == 0);
                            }
                            if i == n {
                                assert(s[0] == n);
                            }
                        }
                    } else if priority_rank(pl) == priority_rank(q) {
                        assert(pl == q);
                        let s = t.push(n);
                        assert(reduced_moves(changes) == Some((q, s)));
                        assert forall|i: int| 0 <= i < changes.len() implies (s.contains(i) <==> (
                        changes[i] is Move && changes[i]->Move_0 == q)) by {
                            if s.contains(i) {
                                let k = choose|k: int| 0 <= k < s.len() && s[k] == i;
                                if k < t.len() {
                                    assert(t.contains(i));
                                }
                            }
                            if i < n && changes[i] is Move && changes[i]->Move_0 == q {
                                assert(t.contains(i));
                                let k = choose|k: int| 0 <= k < t.len() && t[k] == i;
                                assert(s[k] == i);
                            }
                            if i == n {
                                assert(s[t.len() as int] == n);
                            }
                        }
                        assert forall|k: int| 0 <= k < s.len() implies 0 <= #[trigger] s[k] < changes.len() by {
                            if k < t.len() {
                                assert(s[k] == t[k]);
                            }
                        }
                        assert forall|k: int, l: int| 0 <= k < l < s.len() implies s[k] < s[l] by {
                            assert(s[k] == t[k]);
                            if l < t.len() {
                                assert(s[l] == t[l]);
                            }
                        }
                    } else {
                        assert(reduced_moves(changes) == Some((q, t)));
                        assert(pl != q);
                        assert forall|i: int| 0 <= i < changes.len() implies (t.contains(i) <==> (
                        changes[i] is Move && changes[i]->Move_0 == q)) by {
                            if i == n && t.contains(i) {
                                let k = choose|k: int| 0 <= k < t.len() && t[k] == i;
                                assert(t[k] < init.len());
                            }
                        }
                    }
                },
            }
        } else {
            assert(reduced_moves(changes) == reduced_moves(init));
            if let Some((q, t)) = reduced_moves(init) {
                assert forall|i: int| 0 <= i < changes.len() implies (t.contains(i) <==> (changes[i] is Move
                    && changes[i]->Move_0 == q)) by {
                    if i == n && t.contains(i) {
                        let k = choose|k: int| 0 <= k < t.len() && t[k] == i;
                        assert(t[k] < init.len());
                    }
                }
            }
        }
    }
}

/// What one round of changes to a character's base component comes to:
/// the change that makes it anew, by position, or the turn and the moves
/// that stand.
#[derive(Debug)]
pub enum BaseReduction {
    New(usize),
    Updates { flip: Option<(Priority, CharacterFlip)>, moves: Option<(Priority, Vec<usize>)> },
}

/// The system that keeps each character's base component.
pub struct BaseSystem;

impl BaseSystem {
    /// Folds the changes to a character's base component in one round. A
    /// character not yet in the world needs exactly one change that makes
    /// its component, which stands alone. For one that is, the first such
    /// change stands alone if there is one; otherwise the turns and the
    /// moves are each reduced by priority (see `reduced_flip` and
    /// `reduced_moves`). (The errors name the auto-attack component.)
    pub fn reduce_changes(&self, cid: &CharacterID, character_exists: bool, changes: &Vec<BaseChange>) -> (r: Result<
        BaseReduction,
        WorldError,
    >)
        ensures
            !character_exists && new_count(changes@) == 0 ==> r == Err::<BaseReduction, WorldError>(
                WorldError::InvalidReduceMapping(*cid, ComponentID::AutoAttack),
            ),
            !character_exists && new_count(changes@) > 1 ==> r == Err::<BaseReduction, WorldError>(
                WorldError::MultipleUpdateOverrides(*cid, ComponentID::AutoAttack),
            ),
            (!character_exists && new_count(changes@) == 1) || (character_exists && new_count(changes@) > 0)
                ==> (r matches Ok(BaseReduction::New(i)) && i == first_new(changes@) && is_first_new(
                changes@,
                first_new(changes@),
            )),
            character_exists && new_count(changes@) == 0 ==> (r matches Ok(
                BaseReduction::Updates { flip, moves },
            ) && flip == reduced_flip(changes@) && match moves {
                Some((p, v)) => reduced_moves(changes@) == Some((p, v@.map_values(|i: usize| i as int))),
                None => reduced_moves(changes@) is None,
            }),
    {
        let mut first: Option<usize> = None;
        let mut count: usize = 0;
        let mut flip: Option<(Priority, CharacterFlip)> = None;
        let mut moves: Option<(Priority, Vec<usize>)> = None;
        let mut i: usize = 0;
        while i < changes.len()
            invariant
                i <= changes@.len(),
                count == new_count(changes@.take(i as int)),
                count <= i,
                match first {
                    Some(f) => is_first_new(changes@, f as int) && f < i,
                    None => forall|j: int| 0 <= j < i ==> !(changes@[j] is New),
                },
                first is None <==> count == 0,
                flip == reduced_flip(changes@.take(i as int)),
                match moves {
                    Some((p, v)) => reduced_moves(changes@.take(i as int)) == Some(
                        (p, v@.map_values(|k: usize| k as int)),
                    ),
                    None => reduced_moves(changes@.take(i as int)) is None,
                },
            decreases changes@.len() - i,
        {
            let ghost before = changes@.take(i as int);
            assert(changes@.take(i + 1).drop_last() =~= before);
            assert(changes@.take(i + 1).last() == changes@[i as int]);
            match changes[i] {
                BaseChange::New => {
                    if first.is_none() {
                        first = Some(i);
                    }
                    count = count + 1;
                },
                BaseChange::Flip(p, f) => {
                    flip = match flip {
                        None => Some((p, f)),
                        Some((q, g)) => {
                            if rank(p) > rank(q) {
                                Some((p, f))
                            } else if rank(p) == rank(q) {
                                Some((q, g.combine(&f)))
                            } else {
                                Some((q, g))
                            }
                        },
                    };
                },
                BaseChange::Move(p) => {
                    moves = match moves {
                        None => Some((p, vec![i])),
                        Some((q, v)) => {
                            if rank(p) > rank(q) {
                                Some((p, vec![i]))
                            } else if rank(p) == rank(q) {
                                let mut v = v;
                                let ghost old_v = v@;
                                v.push(i);
                                assert(v@.map_values(|k: usize| k as int) =~= old_v.map_values(|k: usize| k as int).push(
                                    i as int,
                                ));
                                Some((q, v))
                            } else {
                                Some((q, v))
                            }
                        },
                    };
                    proof {
                        assert(seq![i].map_values(|k: usize| k as int) =~= seq![i as int]);
                    }
                },
            }
            i = i + 1;
        }
        assert(changes@.take(changes@.len() as int) =~= changes@);
        if let Some(f) = first {
            proof {
                lemma_first_new(changes@, f as int);
            }
        }
        if !character_exists {
            if count == 0 {
                return Err(WorldError::InvalidReduceMapping(*cid, ComponentID::AutoAttack));
            } else if count > 1 {
                return Err(WorldError::MultipleUpdateOverrides(*cid, ComponentID::AutoAttack));
            }
        }
        match first {
            Some(f) => Ok(BaseReduction::New(f)),
            None => Ok(BaseReduction::Updates { flip, moves }),
        }
    }
}

} // verus!
