use vstd::prelude::*;

verus! {

/// The identity of a character in the world.
#[derive(Clone, Copy, Debug, PartialEq, Eq, Structural, Hash, PartialOrd, Ord)]
pub struct CharacterID(pub u64);

impl CharacterID {
    pub fn get_num(&self) -> (n: u64)
        ensures
            n == self.0,
    {
        self.0
    }
}

/// Hands out character IDs in increasing order, starting at 0.
#[derive(Debug, PartialEq, Eq, Structural, PartialOrd, Ord)]
pub struct CharacterIDGenerator(pub u64);

/// The IDs from the first number up to, not including, the second.
#[derive(Clone, Copy, Debug, PartialEq, Eq, Structural, PartialOrd, Ord)]
pub struct CharacterIDRange(pub u64, pub u64);

/// The IDs `start <= n < end`.
pub open spec fn id_span(start: u64, end: u64) -> Set<CharacterID> {
    Set::new(|c: CharacterID| start <= c.0 && c.0 < end)
}

impl CharacterIDRange {
    /// The IDs that this range still holds.
    pub open spec fn ids(&self) -> Set<CharacterID> {
        id_span(self.0, self.1)
    }

    /// The first ID of the range, if any, together with the range of the
    /// IDs after it; the range itself is left as it was.
    pub fn split_id(&self) -> (r: (Option<CharacterID>, Self))
        ensures
            self.0 < self.1 ==> r.0 == Some(CharacterID(self.0)) && r.1 == CharacterIDRange(
                (self.0 + 1) as u64,
                self.1,
            ),
            self.0 >= self.1 ==> r.0 is None && r.1 == *self,
    {
        let mut split = self.clone();
        let id = split.next_id();
        (id, split)
    }

    /// Takes the first ID out of the range.
    pub fn next_id(&mut self) -> (r: Option<CharacterID>)
        ensures
            old(self).0 < old(self).1 ==> r == Some(CharacterID(old(self).0)) && *final(self)
                == CharacterIDRange((old(self).0 + 1) as u64, old(self).1),
            old(self).0 >= old(self).1 ==> r is None && *final(self) == *old(self),
            match r {
                Some(id) => old(self).ids().contains(id) && final(self).ids() == old(self).ids().remove(id),
                None => old(self).ids().is_empty() && final(self).ids() == old(self).ids(),
            },
    {
        if self.0 < self.1 {
            let id = self.0;
            self.0 = self.0 + 1;
            assert(self.ids() =~= old(self).ids().remove(CharacterID(id)));
            Some(CharacterID(id))
        } else {
            assert(old(self).ids() =~= Set::<CharacterID>::empty());
            None
        }
    }

    /// Takes the first `max` IDs (or all, if fewer are left) out of the range
    /// and gives them back as a range of their own.
    pub fn take_range(&mut self, max: u64) -> (r: CharacterIDRange)
        requires
            old(self).0 + max <= u64::MAX,
        ensures
            ({
                let mid = if old(self).1 < old(self).0 + max {
                    old(self).1
                } else {
                    (old(self).0 + max) as u64
                };
                r == CharacterIDRange(old(self).0, mid) && *final(self) == CharacterIDRange(
                    mid,
                    old(self).1,
                )
            }),
            old(self).0 <= old(self).1 ==> r.ids() + final(self).ids() == old(self).ids() && r.ids().disjoint(
                final(self).ids(),
            ),
    {
        let sum = self.0 + max;
        let mid = if self.1 < sum {
            self.1
        } else {
            sum
        };
        let old_0 = self.0;
        *self = CharacterIDRange(mid, self.1);
        let r = CharacterIDRange(old_0, mid);
        assert(old(self).0 <= old(self).1 ==> r.ids() + self.ids() =~= old(self).ids());
        r
    }

    pub fn is_empty(&self) -> (b: bool)
        ensures
            b == (self.0 >= self.1),
            b == self.ids().is_empty(),
    {
        if self.0 < self.1 {
            assert(self.ids().contains(CharacterID(self.0)));
        } else {
            assert(self.ids() =~= Set::<CharacterID>::empty());
        }
        self.0 >= self.1
    }
}

impl CharacterIDGenerator {
    pub fn new() -> (g: Self)
        ensures
            g.0 == 0,
    {
        CharacterIDGenerator(0)
    }

    /// Hands out the next ID.
    pub fn generate(&mut self) -> (id: CharacterID)
        requires
            old(self).0 < u64::MAX,
        ensures
            id == CharacterID(old(self).0),
            final(self).0 == old(self).0 + 1,
    {
        self.0 = self.0 + 1;
        CharacterID(self.0 - 1)
    }

    /// Hands out the next `count` IDs as one range.
    pub fn generate_range(&mut self, count: u64) -> (r: CharacterIDRange)
        requires
            old(self).0 + count <= u64::MAX,
        ensures
            r == CharacterIDRange(old(self).0, final(self).0),
            final(self).0 == old(self).0 + count,
    {
        let start = self.0;
        self.0 = self.0 + count;
        CharacterIDRange(start, self.0)
    }
}

impl Default for CharacterIDGenerator {
    fn default() -> (g: Self)
        ensures
            g.0 == 0,
    {
        Self::new()
    }
}

/// An ID handed out by a generator that stood at `before` is never handed out
/// again by the generator once it stands at `after` or later: every ID it
/// gives from then on is at least `after`, which is past the first one.
pub proof fn lemma_generated_ids_never_repeat(first: CharacterID, before: u64, after: u64, later: CharacterID)
    requires
        first.0 == before,
        before < after,
        after <= later.0,
    ensures
        first != later,
{
}

/// The ranges that a generator hands out one after another never share an
/// ID.
pub proof fn lemma_generated_ranges_disjoint(start: u64, first_count: u64, second_count: u64)
    requires
        start + first_count + second_count <= u64::MAX,
    ensures
        id_span(start, (start + first_count) as u64).disjoint(
            id_span((start + first_count) as u64, (start + first_count + second_count) as u64),
        ),
{
}

/// The kinds of characters the world knows.
#[derive(Clone, Copy, Debug, PartialEq, Eq, Structural, Hash)]
pub enum CharacterType {
    IceWiz,
    CasterMinion,
    Projectile,
}

} // verus!
