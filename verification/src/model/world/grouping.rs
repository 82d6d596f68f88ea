use std::collections::HashMap;

use itertools::Itertools;
use vstd::prelude::*;

verus! {

/// The runs of `items`: maximal stretches of consecutive items with the same
/// key, each given as its key and the values in it, in order.
pub open spec fn runs_of<T>(items: Seq<(u64, T)>) -> Seq<(u64, Seq<T>)>
    decreases items.len(),
{
    if items.len() == 0 {
        Seq::empty()
    } else {
        let r = runs_of(items.drop_last());
        let k = items.last().0;
        let v = items.last().1;
        if r.len() > 0 && r.last().0 == k {
            r.update(r.len() - 1, (k, r.last().1.push(v)))
        } else {
            r.push((k, seq![v]))
        }
    }
}

/// The views of groups as sequences.
pub open spec fn runs_view<T>(groups: Seq<(u64, Vec<T>)>) -> Seq<(u64, Seq<T>)> {
    groups.map_values(|g: (u64, Vec<T>)| (g.0, g.1@))
}

/// Groups consecutive items with equal keys, by `Itertools::group_by`.
/// Its documentation promises that consecutive elements that map to the same
/// key are assigned to the same group, in order; that is `runs_of`.
#[verifier::external_body]
pub(crate) fn group_runs<T>(items: Vec<(u64, T)>) -> (groups: Vec<(u64, Vec<T>)>)
    ensures
        runs_view(groups@) == runs_of(items@),
{
    let mut groups = Vec::new();
    for (key, group) in &items.into_iter().group_by(|item| item.0) {
        groups.push((key, group.map(|item| item.1).collect()));
    }
    groups
}

/// The values of `items` filed under the key `k`, in order.
pub open spec fn values_under<T>(items: Seq<(u64, T)>, k: u64) -> Seq<T>
    decreases items.len(),
{
    if items.len() == 0 {
        Seq::empty()
    } else {
        let prev = values_under(items.drop_last(), k);
        if items.last().0 == k {
            prev.push(items.last().1)
        } else {
            prev
        }
    }
}

/// A value filed under `k` is the value of an item with the key `k`, and
/// the value of every such item is filed under it.
pub(crate) proof fn lemma_values_under<T>(items: Seq<(u64, T)>, k: u64)
    ensures
        forall|v: T| values_under(items, k).contains(v) ==> exists|m: int| 0 <= m < items.len() && #[trigger] items[m] == (k, v),
        forall|m: int| 0 <= m < items.len() && #[trigger] items[m].0 == k ==> values_under(items, k).contains(items[m].1),
    decreases items.len(),
{
    if items.len() > 0 {
        let init = items.drop_last();
        lemma_values_under(init, k);
        let prev = values_under(init, k);
        assert forall|v: T| values_under(items, k).contains(v) implies exists|m: int| 0 <= m < items.len() && #[trigger] items[m] == (k, v) by {
            if prev.contains(v) {
                let m = choose|m: int| 0 <= m < init.len() && #[trigger] init[m] == (k, v);
                assert(items[m] == init[m]);
            } else {
                let j = choose|j: int| 0 <= j < values_under(items, k).len() && values_under(items, k)[j] == v;
                assert(items.last().0 == k);
                assert(j == prev.len());
                assert(items[items.len() - 1] == (k, v));
            }
        }
        assert forall|m: int| 0 <= m < items.len() && #[trigger] items[m].0 == k implies values_under(items, k).contains(items[m].1) by {
            if m < init.len() {
                assert(items[m] == init[m]);
                assert(init[m].0 == k);
                let j = choose|j: int| 0 <= j < prev.len() && prev[j] == init[m].1;
                assert(values_under(items, k)[j] == prev[j]);
            } else {
                assert(values_under(items, k) == prev.push(items.last().1));
                assert(values_under(items, k)[prev.len() as int] == items[m].1);
            }
        }
    }
}

/// Files each value under its key, by `Itertools::into_group_map`, whose
/// source pushes each value, in order, onto the list of its key: a key is
/// in the map when some item has it, and its list holds the values of the
/// items with that key, in order.
#[verifier::external_body]
pub(crate) fn group_map<T>(items: Vec<(u64, T)>) -> (groups: HashMap<u64, Vec<T>>)
    ensures
        forall|k: u64| #[trigger] groups@.contains_key(k) <==> values_under(items@, k).len() > 0,
        forall|k: u64| groups@.contains_key(k) ==> #[trigger] groups@[k]@ == values_under(items@, k),
{
    items.into_iter().into_group_map()
}

} // verus!
