use std::collections::HashMap;

use vstd::prelude::*;

verus! {

/// Whether `i` is the first position in `commands` whose ordering number is
/// greater than `ordering`.
pub open spec fn is_first_after<C>(commands: Seq<(u32, C)>, ordering: u32, i: int) -> bool {
    &&& 0 <= i < commands.len()
    &&& ordering < commands[i].0
    &&& forall|j: int| 0 <= j < i ==> commands[j].0 <= ordering
}

/// Where a command with the ordering number `ordering` goes among
/// `commands`: before the first with a greater number, else at the end.
pub open spec fn ordered_position<C>(commands: Seq<(u32, C)>, ordering: u32) -> int {
    if exists|i: int| is_first_after(commands, ordering, i) {
        choose|i: int| is_first_after(commands, ordering, i)
    } else {
        commands.len() as int
    }
}

/// The commands are in order of their ordering numbers.
pub open spec fn ordered<C>(commands: Seq<(u32, C)>) -> bool {
    forall|i: int, j: int| 0 <= i <= j < commands.len() ==> commands[i].0 <= commands[j].0
}

/// Inserts `command` with the ordering number `ordering` at its
/// `ordered_position` among `commands`.
pub fn insert_by_ordering<C>(commands: &mut Vec<(u32, C)>, ordering: u32, command: C)
    ensures
        final(commands)@ == old(commands)@.insert(ordered_position(old(commands)@, ordering), (ordering, command)),
        0 <= ordered_position(old(commands)@, ordering) <= old(commands)@.len(),
{
    let mut i: usize = 0;
    while i < commands.len()
        invariant
            i <= commands@.len(),
            commands@ == old(commands)@,
            forall|j: int| 0 <= j < i ==> commands@[j].0 <= ordering,
        decreases commands@.len() - i,
    {
        if ordering < commands[i].0 {
            proof {
                let c = choose|k: int| is_first_after(commands@, ordering, k);
                assert(is_first_after(commands@, ordering, i as int));
                assert(is_first_after(commands@, ordering, c));
                if c < i {
                    assert(commands@[c].0 <= ordering);
                } else if i < c {
                    assert(commands@[i as int].0 <= ordering);
                }
            }
            commands.insert(i, (ordering, command));
            return;
        }
        i = i + 1;
    }
    proof {
        if exists|k: int| is_first_after(commands@, ordering, k) {
            let k = choose|k: int| is_first_after(commands@, ordering, k);
            assert(commands@[k].0 <= ordering);
        }
    }
    commands.push((ordering, command));
}

proof fn lemma_first_after_exists<C>(commands: Seq<(u32, C)>, ordering: u32, j: int)
    requires
        0 <= j < commands.len(),
        ordering < commands[j].0,
    ensures
        exists|i: int| is_first_after(commands, ordering, i),
    decreases j,
{
    if forall|q: int| 0 <= q < j ==> commands[q].0 <= ordering {
        assert(is_first_after(commands, ordering, j));
    } else {
        let q = choose|q: int| 0 <= q < j && !(commands[q].0 <= ordering);
        lemma_first_after_exists(commands, ordering, q);
    }
}

/// Inserting at the ordered position keeps the commands in order, and puts
/// the new one after every command with the same number.
pub proof fn lemma_insert_keeps_order<C>(commands: Seq<(u32, C)>, ordering: u32, command: C)
    requires
        ordered(commands),
    ensures
        ordered(commands.insert(ordered_position(commands, ordering), (ordering, command))),
        forall|j: int| 0 <= j < ordered_position(commands, ordering) ==> commands[j].0 <= ordering,
        forall|j: int| ordered_position(commands, ordering) <= j < commands.len() ==> ordering < commands[j].0,
{
    let p = ordered_position(commands, ordering);
    if exists|i: int| is_first_after(commands, ordering, i) {
        let k = choose|i: int| is_first_after(commands, ordering, i);
        assert(is_first_after(commands, ordering, k));
        assert forall|j: int| k <= j < commands.len() implies ordering < commands[j].0 by {
            assert(commands[k].0 <= commands[j].0);
        }
    } else {
        assert forall|j: int| 0 <= j < commands.len() implies commands[j].0 <= ordering by {
            if ordering < commands[j].0 {
                lemma_first_after_exists(commands, ordering, j);
            }
        }
    }
}

/// The count of commands seen for `delta` ticks after the tick `base`.
pub open spec fn seen_count(tick_count: Map<u32, HashMap<u32, u32>>, base: u32, delta: u32) -> nat {
    if tick_count.contains_key(base) && tick_count[base]@.contains_key(delta) {
        tick_count[base]@[delta] as nat
    } else {
        0
    }
}

/// Files a command for the tick `tick` at its ordered position among the
/// commands of that tick, and counts it, under the tick `tick_base`, as
/// arriving `tick - tick_base` ticks ahead.
pub fn add_tick_command<C>(
    tick_commands: &mut HashMap<u32, Vec<(u32, C)>>,
    tick_count: &mut HashMap<u32, HashMap<u32, u32>>,
    tick_base: u32,
    tick: u32,
    ordering: u32,
    command: C,
)
    requires
        tick_base <= tick,
        seen_count(old(tick_count)@, tick_base, (tick - tick_base) as u32) < u32::MAX,
    ensures
        final(tick_count)@.contains_key(tick_base),
        final(tick_count)@.remove(tick_base) == old(tick_count)@.remove(tick_base),
        final(tick_count)@[tick_base]@ == (if old(tick_count)@.contains_key(tick_base) {
            old(tick_count)@[tick_base]@
        } else {
            Map::<u32, u32>::empty()
        }).insert(
            (tick - tick_base) as u32,
            (seen_count(old(tick_count)@, tick_base, (tick - tick_base) as u32) + 1) as u32,
        ),
        final(tick_commands)@.contains_key(tick),
        final(tick_commands)@.remove(tick) == old(tick_commands)@.remove(tick),
        final(tick_commands)@[tick]@ == (if old(tick_commands)@.contains_key(tick) {
            old(tick_commands)@[tick]@.insert(
                ordered_position(old(tick_commands)@[tick]@, ordering),
                (ordering, command),
            )
        } else {
            seq![(ordering, command)]
        }),
{
    broadcast use vstd::std_specs::hash::group_hash_axioms;

    let delta = tick - tick_base;
    let mut slot = match tick_count.remove(&tick_base) {
        Some(s) => s,
        None => HashMap::new(),
    };
    let seen = match slot.get(&delta) {
        Some(c) => *c,
        None => 0,
    };
    slot.insert(delta, seen + 1);
    tick_count.insert(tick_base, slot);
    let mut commands = match tick_commands.remove(&tick) {
        Some(v) => v,
        None => Vec::new(),
    };
    insert_by_ordering(&mut commands, ordering, command);
    tick_commands.insert(tick, commands);
    assert(tick_count@.remove(tick_base) =~= old(tick_count)@.remove(tick_base));
    assert(tick_commands@.remove(tick) =~= old(tick_commands)@.remove(tick));
}

} // verus!
