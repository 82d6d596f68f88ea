use std::collections::HashMap;

use vstd::prelude::*;
use vstd::std_specs::iter::IteratorSpec;

use super::character::CharacterID;
use super::grouping::{group_map, lemma_values_under, values_under};
use super::WorldError;

verus! {

/// The kinds of components a character can have.
#[derive(Clone, Copy, Debug, PartialEq, Eq, Structural, Hash)]
pub enum ComponentID {
    Base,
    Health,
    Movement,
    IceWiz,
    CasterMinion,
    AutoAttack,
    Projectile,
    Status,
    Flash,
    Collision,
}

/// A kind of component, with the ID it is known by.
pub trait GetComponentID {
    const ID: ComponentID;
}

/// A component of a character: the one a character starts with, and what
/// an update makes of it.
pub trait Component: GetComponentID + Sized {
    /// What an update to this component says.
    type Update;

    spec fn spec_initial() -> Self;

    spec fn spec_update(&self, update: &Self::Update) -> Self;

    /// The component a character has before any update.
    fn initial() -> (c: Self)
        ensures
            c == Self::spec_initial(),
    ;

    /// The component after `update`.
    fn update(&self, update: &Self::Update) -> (c: Self)
        ensures
            c == self.spec_update(update),
    ;
}

/// An update to the component of one character.
pub struct ComponentUpdate<U> {
    pub cid: CharacterID,
    pub data: U,
}

/// The updates in `us` for the character numbered `k`, in order.
pub open spec fn updates_for<U>(us: Seq<ComponentUpdate<U>>, k: u64) -> Seq<U>
    decreases us.len(),
{
    if us.len() == 0 {
        Seq::<U>::empty()
    } else {
        let prev = updates_for(us.drop_last(), k);
        if us.last().cid.0 == k {
            prev.push(us.last().data)
        } else {
            prev
        }
    }
}

/// `start` after the updates `us`, one after another.
pub open spec fn fold_updates<T: Component>(start: T, us: Seq<T::Update>) -> T
    decreases us.len(),
{
    if us.len() == 0 {
        start
    } else {
        fold_updates(start, us.drop_last()).spec_update(&us.last())
    }
}

/// The components, by character number, once the updates `us` are carried
/// out: each character with updates gets its component (or the initial one
/// if it had none) after all its updates, in order; the rest stay.
pub open spec fn updated_components<T: Component>(m: Map<u64, T>, us: Seq<ComponentUpdate<T::Update>>) -> Map<
    u64,
    T,
> {
    Map::new(
        |k: u64| m.contains_key(k) || updates_for(us, k).len() > 0,
        |k: u64|
            if updates_for(us, k).len() > 0 {
                fold_updates(
                    if m.contains_key(k) {
                        m[k]
                    } else {
                        T::spec_initial()
                    },
                    updates_for(us, k),
                )
            } else {
                m[k]
            },
    )
}

proof fn lemma_updated_push<T: Component>(m: Map<u64, T>, us: Seq<ComponentUpdate<T::Update>>, u: ComponentUpdate<T::Update>)
    ensures
        ({
            let before = updated_components(m, us);
            let k = u.cid.0;
            let cur = if before.contains_key(k) {
                before[k]
            } else {
                T::spec_initial()
            };
            updated_components(m, us.push(u)) == before.insert(k, cur.spec_update(&u.data))
        }),
{
    let before = updated_components(m, us);
    let k = u.cid.0;
    let after = updated_components(m, us.push(u));
    assert(us.push(u).drop_last() =~= us);
    assert forall|j: u64| #[trigger] updates_for(us.push(u), j) == (if j == k {
        updates_for(us, j).push(u.data)
    } else {
        updates_for(us, j)
    }) by {}
    let cur = if before.contains_key(k) {
        before[k]
    } else {
        T::spec_initial()
    };
    let start = if m.contains_key(k) {
        m[k]
    } else {
        T::spec_initial()
    };
    assert(updates_for(us.push(u), k).drop_last() =~= updates_for(us, k));
    assert(fold_updates(start, updates_for(us, k)) == cur);
    assert(after =~= before.insert(k, cur.spec_update(&u.data)));
}

/// Carrying out two batches of updates one after the other is carrying out
/// all of them at once.
pub proof fn lemma_updates_compose<T: Component>(
    m: Map<u64, T>,
    a: Seq<ComponentUpdate<T::Update>>,
    b: Seq<ComponentUpdate<T::Update>>,
)
    ensures
        updated_components(updated_components(m, a), b) == updated_components(m, a + b),
    decreases b.len(),
{
    if b.len() == 0 {
        let x = updated_components(m, a);
        assert(updated_components(x, b) =~= x);
        assert(a + b =~= a);
    } else {
        let b0 = b.drop_last();
        let u = b.last();
        lemma_updates_compose(m, a, b0);
        assert(b0.push(u) =~= b);
        assert((a + b0).push(u) =~= a + b);
        lemma_updated_push(updated_components(m, a), b0, u);
        lemma_updated_push(m, a + b0, u);
    }
}

/// The components of one kind, by the number of their character.
pub struct ComponentStorage<T> {
    pub components: HashMap<u64, T>,
}

impl<T: Component> ComponentStorage<T> {
    pub fn new() -> (s: Self)
        ensures
            s.components@ == Map::<u64, T>::empty(),
    {
        ComponentStorage { components: HashMap::new() }
    }

    /// The characters that have this component, each once.
    pub fn get_characters(&self) -> (ids: Vec<CharacterID>)
        ensures
            ids@.no_duplicates(),
            forall|c: CharacterID| #[trigger] ids@.contains(c) <==> self.components@.contains_key(c.0),
    {
        broadcast use vstd::std_specs::hash::group_hash_axioms;

        let mut ids: Vec<CharacterID> = Vec::new();
        let ghost keys = vstd::std_specs::hash::spec_keys_iter(&self.components).remaining().unref();
        for k in it: self.components.keys()
            invariant
                it.seq().unref() == keys,
                ids@ == keys.take(it.index() as int).map_values(|n: u64| CharacterID(n)),
        {
            ids.push(CharacterID(*k));
            assert(keys.take(it.index() as int + 1) =~= keys.take(it.index() as int).push(*k));
        }
        assert(ids@ =~= keys.map_values(|n: u64| CharacterID(n)));
        proof {
            assert(keys.to_set() == self.components@.dom());
            assert(keys.no_duplicates());
            assert forall|c: CharacterID| #[trigger] ids@.contains(c) <==> self.components@.contains_key(c.0) by {
                if ids@.contains(c) {
                    let i = choose|i: int| 0 <= i < ids@.len() && ids@[i] == c;
                    assert(keys[i] == c.0);
                    assert(keys.to_set().contains(c.0));
                }
                if self.components@.contains_key(c.0) {
                    assert(keys.to_set().contains(c.0));
                    let i = choose|i: int| 0 <= i < keys.len() && keys[i] == c.0;
                    assert(ids@[i] == c);
                }
            }
            assert forall|i: int, j: int| 0 <= i < ids@.len() && 0 <= j < ids@.len() && i != j implies ids@[i] != ids@[j] by {
                assert(keys[i] != keys[j]);
            }
        }
        ids
    }

    /// Whether the character has this component.
    pub fn has_character(&self, cid: &CharacterID) -> (r: bool)
        ensures
            r == self.components@.contains_key(cid.0),
    {
        broadcast use vstd::std_specs::hash::group_hash_axioms;

        self.components.contains_key(&cid.0)
    }

    /// Takes the character's component away.
    pub fn erase(&mut self, cid: &CharacterID)
        ensures
            final(self).components@ == old(self).components@.remove(cid.0),
    {
        broadcast use vstd::std_specs::hash::group_hash_axioms;

        self.components.remove(&cid.0);
    }

    /// Carries out the updates, as `updated_components` says: the updates
    /// are filed under their characters, and each character's component
    /// (or the initial one if it has none) goes through its updates in
    /// order.
    pub fn update(&mut self, updates: &[ComponentUpdate<T::Update>]) -> (r: Result<(), Vec<WorldError>>)
        ensures
            r is Ok,
            final(self).components@ == updated_components(old(self).components@, updates@),
    {
        broadcast use vstd::std_specs::hash::group_hash_axioms;

        let ghost us = updates@;
        assert(updates@.len() == updates.len());
        let mut keyed: Vec<(u64, usize)> = Vec::new();
        let mut i: usize = 0;
        while i < updates.len()
            invariant
                i <= us.len(),
                us == updates@,
                keyed@ == update_positions(us).take(i as int),
            decreases us.len() - i,
        {
            keyed.push((updates[i].cid.0, i));
            assert(keyed@ =~= update_positions(us).take(i + 1));
            i = i + 1;
        }
        assert(keyed@ =~= update_positions(us));
        let ghost kd = keyed@;
        let groups = group_map(keyed);
        proof {
            assert forall|k: u64| #[trigger] groups@.contains_key(k) <==> updates_for(us, k).len() > 0 by {
                lemma_positions_give_updates(us, k);
            }
        }
        let ghost old_m = self.components@;
        let ghost keys = vstd::std_specs::hash::spec_keys_iter(&groups).remaining().unref();
        assert(keys.to_set() == groups@.dom());
        assert(keys.no_duplicates());
        let mut ks: Vec<u64> = Vec::new();
        for k in it: groups.keys()
            invariant
                it.seq().unref() == keys,
                ks@ == keys.take(it.index() as int),
        {
            ks.push(*k);
            assert(keys.take(it.index() as int + 1) =~= keys.take(it.index() as int).push(*k));
        }
        assert(keys.take(keys.len() as int) =~= keys);
        let mut idx: usize = 0;
        while idx < ks.len()
            invariant
                ks@ == keys,
                idx <= keys.len(),
                us == updates@,
                us.len() <= usize::MAX,
                keys.to_set() == groups@.dom(),
                keys.no_duplicates(),
                forall|j: u64| #[trigger] groups@.contains_key(j) <==> updates_for(us, j).len() > 0,
                forall|j: u64| groups@.contains_key(j) ==> #[trigger] groups@[j]@ == values_under(kd, j),
                kd == update_positions(us),
                forall|j: u64|
                    keys.take(idx as int).contains(j) ==> #[trigger] self.components@.contains_key(j)
                        && self.components@[j] == updated_components(old_m, us)[j],
                forall|j: u64|
                    !keys.take(idx as int).contains(j) ==> (#[trigger] self.components@.contains_key(j)
                        == old_m.contains_key(j)) && (old_m.contains_key(j) ==> self.components@[j] == old_m[j]),
            decreases ks@.len() - idx,
        {
            let key = ks[idx];
            let ghost n = idx as int;
            assert(keys[n] == key);
            assert(keys.to_set().contains(key));
            let g = groups.get(&key).unwrap();
            proof {
                lemma_positions_give_updates(us, key);
            }
            let ghost start = if old_m.contains_key(key) {
                old_m[key]
            } else {
                T::spec_initial()
            };
            assert(!keys.take(n).contains(key)) by {
                if keys.take(n).contains(key) {
                    let m = choose|m: int| 0 <= m < n && keys.take(n)[m] == key;
                    assert(keys[m] == keys[n]);
                }
            }
            assert(g@ == values_under(kd, key));
            assert(g@.len() > 0);
            assert(self.components@.contains_key(key) == old_m.contains_key(key));
            let first = g[0];
            let mut cur = match self.components.get(&key) {
                Some(c) => c.update(&updates[first].data),
                None => T::initial().update(&updates[first].data),
            };
            assert(first < us.len());
            assert(cur == start.spec_update(&us[first as int].data));
            assert(update_datas(us, g@.take(1)) =~= seq![us[first as int].data]);
            assert(fold_updates(start, Seq::<T::Update>::empty()) == start);
            assert(seq![us[first as int].data].drop_last() =~= Seq::<T::Update>::empty());
            assert(fold_updates(start, seq![us[first as int].data]) == start.spec_update(&us[first as int].data));
            let mut j: usize = 1;
            while j < g.len()
                invariant
                    1 <= j <= g@.len(),
                    us == updates@,
                    forall|m: int| 0 <= m < g@.len() ==> #[trigger] g@[m] < us.len(),
                    cur == fold_updates(start, update_datas(us, g@.take(j as int))),
                decreases g@.len() - j,
            {
                let idx = g[j];
                cur = cur.update(&updates[idx].data);
                assert(update_datas(us, g@.take(j + 1)).drop_last() =~= update_datas(us, g@.take(j as int)));
                j = j + 1;
            }
            assert(g@.take(j as int) =~= g@);
            let ghost before = self.components@;
            self.components.insert(key, cur);
            proof {
                assert(keys.take(n + 1) =~= keys.take(n).push(key));
                assert(update_datas(us, g@) == updates_for(us, key));
                assert(updates_for(us, key).len() > 0);
                assert(self.components@[key] == updated_components(old_m, us)[key]);
                assert forall|jj: u64| keys.take(n + 1).contains(jj) implies #[trigger] self.components@.contains_key(jj)
                    && self.components@[jj] == updated_components(old_m, us)[jj] by {
                    if jj != key {
                        let m = choose|m: int| 0 <= m < n + 1 && #[trigger] keys.take(n + 1)[m] == jj;
                        assert(keys.take(n)[m] == jj);
                        assert(keys.take(n).contains(jj));
                        assert(before.contains_key(jj));
                    }
                }
                assert forall|jj: u64| !keys.take(n + 1).contains(jj) implies (#[trigger] self.components@.contains_key(jj)
                    == old_m.contains_key(jj)) && (old_m.contains_key(jj) ==> self.components@[jj] == old_m[jj]) by {
                    if keys.take(n).contains(jj) {
                        let m = choose|m: int| 0 <= m < n && #[trigger] keys.take(n)[m] == jj;
                        assert(keys.take(n + 1)[m] == jj);
                    }
                    assert(jj != key) by {
                        assert(keys.take(n + 1)[n] == key);
                    }
                    assert(before.contains_key(jj) == old_m.contains_key(jj));
                }
            }
            idx = idx + 1;
        }
        proof {
            assert(keys.take(keys.len() as int) =~= keys);
            assert(self.components@ =~= updated_components(old_m, us)) by {
                assert forall|jj: u64| #[trigger] self.components@.contains_key(jj) <==> updated_components(old_m, us).contains_key(jj) by {
                    if groups@.contains_key(jj) {
                        assert(keys.to_set().contains(jj));
                    }
                }
                assert forall|jj: u64| #[trigger] self.components@.contains_key(jj) implies self.components@[jj]
                    == updated_components(old_m, us)[jj] by {
                    if groups@.contains_key(jj) {
                        assert(keys.to_set().contains(jj));
                    }
                }
            }
        }
        Ok(())
    }

}

/// Each update, as the number of its character and its position.
pub open spec fn update_positions<U>(us: Seq<ComponentUpdate<U>>) -> Seq<(u64, usize)> {
    Seq::new(us.len(), |i: int| (us[i].cid.0, i as usize))
}

/// The updates at the positions `ps`, in order.
pub open spec fn update_datas<U>(us: Seq<ComponentUpdate<U>>, ps: Seq<usize>) -> Seq<U> {
    ps.map_values(|i: usize| us[i as int].data)
}

/// The positions filed under the character numbered `k` are those of its
/// updates, in order.
proof fn lemma_positions_give_updates<U>(us: Seq<ComponentUpdate<U>>, k: u64)
    requires
        us.len() <= usize::MAX,
    ensures
        update_datas(us, values_under(update_positions(us), k)) == updates_for(us, k),
        forall|m: int|
            0 <= m < values_under(update_positions(us), k).len() ==> #[trigger] values_under(update_positions(us), k)[m]
                < us.len(),
        values_under(update_positions(us), k).len() == updates_for(us, k).len(),
    decreases us.len(),
{
    let ps = update_positions(us);
    lemma_values_under(ps, k);
    assert forall|m: int| 0 <= m < values_under(ps, k).len() implies #[trigger] values_under(ps, k)[m] < us.len() by {
        let v = values_under(ps, k)[m];
        assert(values_under(ps, k).contains(v));
        let mm = choose|mm: int| 0 <= mm < ps.len() && #[trigger] ps[mm] == (k, v);
    }
    if us.len() > 0 {
        let init = us.drop_last();
        lemma_positions_give_updates(init, k);
        let pi = update_positions(init);
        assert(ps.drop_last() =~= pi);
        let prev = values_under(pi, k);
        assert forall|m: int| 0 <= m < prev.len() implies #[trigger] update_datas(us, prev)[m] == update_datas(init, prev)[m] by {
            assert(prev[m] < init.len());
        }
        assert(update_datas(us, prev) =~= update_datas(init, prev));
        if us.last().cid.0 == k {
            assert(values_under(ps, k) == prev.push((us.len() - 1) as usize));
            assert(update_datas(us, prev.push((us.len() - 1) as usize)) =~= update_datas(us, prev).push(us.last().data));
        }
    }
}

/// The value of `key` in `map`, to change, by `HashMap::get_mut`, which
/// gives the value stored under the key if there is one; what is written
/// through it is what the map then holds under the key.
#[verifier::external_body]
fn map_get_mut<'a, T>(map: &'a mut HashMap<u64, T>, key: &u64) -> (r: Option<&'a mut T>)
    ensures
        match r {
            Some(v) => old(map)@.contains_key(*key) && *v == old(map)@[*key] && final(map)@ == old(
                map,
            )@.insert(*key, *final(v)),
            None => !old(map)@.contains_key(*key) && final(map)@ == old(map)@,
        },
{
    map.get_mut(key)
}

/// Access to the table of components of one kind.
pub trait ComponentStorageContainer<T: Component> {
    /// The components, by the number of their character.
    spec fn stored(&self) -> Map<u64, T>;

    fn get_storage(&self) -> (s: &HashMap<u64, T>)
        ensures
            s@ == self.stored(),
    ;

    fn get_storage_mut(&mut self) -> (s: &mut HashMap<u64, T>)
        ensures
            s@ == old(self).stored(),
            final(self).stored() == final(s)@,
    ;

    /// The character's component, to change, or the error that it has none.
    fn get_component_mut(&mut self, cid: &CharacterID) -> (r: Result<&mut T, WorldError>)
        ensures
            match r {
                Ok(c) => old(self).stored().contains_key(cid.0) && *c == old(self).stored()[cid.0]
                    && final(self).stored() == old(self).stored().insert(cid.0, *final(c)),
                Err(e) => !old(self).stored().contains_key(cid.0) && e == WorldError::MissingCharacterComponent(
                    *cid,
                    T::ID,
                ) && final(self).stored() == old(self).stored(),
            },
    ;

    /// The character's component, or the error that it has none.
    fn get_component(&self, cid: &CharacterID) -> (r: Result<&T, WorldError>)
        ensures
            self.stored().contains_key(cid.0) ==> r == Ok::<&T, WorldError>(&self.stored()[cid.0]),
            !self.stored().contains_key(cid.0) ==> r == Err::<&T, WorldError>(
                WorldError::MissingCharacterComponent(*cid, T::ID),
            ),
    ;
}

impl<T: Component> ComponentStorageContainer<T> for ComponentStorage<T> {
    open spec fn stored(&self) -> Map<u64, T> {
        self.components@
    }

    fn get_storage(&self) -> (s: &HashMap<u64, T>) {
        &self.components
    }

    fn get_storage_mut(&mut self) -> (s: &mut HashMap<u64, T>) {
        &mut self.components
    }

    fn get_component_mut(&mut self, cid: &CharacterID) -> (r: Result<&mut T, WorldError>) {
        match map_get_mut(&mut self.components, &cid.0) {
            Some(c) => Ok(c),
            None => Err(WorldError::MissingCharacterComponent(*cid, T::ID)),
        }
    }

    fn get_component(&self, cid: &CharacterID) -> (r: Result<&T, WorldError>) {
        broadcast use vstd::std_specs::hash::group_hash_axioms;

        match self.components.get(&cid.0) {
            Some(c) => Ok(c),
            None => Err(WorldError::MissingCharacterComponent(*cid, T::ID)),
        }
    }
}

} // verus!
