use std::cmp::Ordering;

use itertools::Itertools;
use vstd::prelude::*;

use super::status::{ranks_before, Status, StatusPrio};

verus! {

/// How two candidates, each with its position, compare: the one that ranks
/// before the other comes first.
fn candidate_order(a: &(usize, (StatusPrio, Status)), b: &(usize, (StatusPrio, Status))) -> (o: Ordering)
    ensures
        o == (if ranks_before(a.1, b.1) {
            Ordering::Less
        } else if ranks_before(b.1, a.1) {
            Ordering::Greater
        } else {
            Ordering::Equal
        }),
{
    let (_, ca) = *a;
    let (_, cb) = *b;
    let (pa, sa) = ca;
    let (pb, sb) = cb;
    let (va, vb) = (pa.get_prio(), pb.get_prio());
    let (ka, kb) = (sa.id.key(), sb.id.key());
    if va > vb || (va == vb && ka < kb) {
        Ordering::Less
    } else if vb > va || (va == vb && kb < ka) {
        Ordering::Greater
    } else {
        Ordering::Equal
    }
}

/// Sorts the candidates by `Itertools::sorted_unstable_by` with
/// `candidate_order`. Its source collects them and sorts them with
/// `slice::sort_unstable_by`: the result holds the same candidates, in an
/// order where none ranks before one ahead of it; candidates of the same
/// rank may come in either order.
#[verifier::external_body]
pub(crate) fn sort_by_rank(v: Vec<(usize, (StatusPrio, Status))>) -> (r: Vec<(usize, (StatusPrio, Status))>)
    ensures
        r@.to_multiset() == v@.to_multiset(),
        forall|i: int, j: int| 0 <= i < j < r@.len() ==> !ranks_before(#[trigger] r@[j].1, #[trigger] r@[i].1),
{
    v.into_iter().sorted_unstable_by(|a, b| candidate_order(a, b)).collect()
}

} // verus!
