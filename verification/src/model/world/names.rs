use vstd::prelude::*;

use crate::formatting::{decimal, lemma_decimal_injective};
use vstd::set_lib::{lemma_int_range, lemma_len_subset, lemma_map_size, set_int_range};

verus! {

/// The `i`-th name tried when `base` is taken: `base (i)`.
pub open spec fn candidate_name(base: Seq<char>, i: nat) -> Seq<char> {
    base + seq![' ', '('] + decimal(i) + seq![')']
}

pub proof fn lemma_candidate_name_injective(base: Seq<char>, i: nat, j: nat)
    ensures
        candidate_name(base, i) == candidate_name(base, j) ==> i == j,
{
    if candidate_name(base, i) == candidate_name(base, j) {
        let a = candidate_name(base, i);
        let b = candidate_name(base, j);
        assert(a.len() == b.len());
        assert(a.subrange(base.len() as int + 2, a.len() - 1) =~= decimal(i));
        assert(b.subrange(base.len() as int + 2, b.len() - 1) =~= decimal(j));
        lemma_decimal_injective(i, j);
    }
}

/// Among `names.len() + 1` candidate names, one is not in `names`.
pub proof fn lemma_free_candidate_exists(names: Seq<Seq<char>>, base: Seq<char>)
    ensures
        exists|i: nat| 1 <= i <= names.len() + 1 && !names.contains(#[trigger] candidate_name(base, i)),
{
    if forall|i: nat| 1 <= i <= names.len() + 1 ==> names.contains(#[trigger] candidate_name(base, i)) {
        let n = names.len() as int;
        let range = set_int_range(1, n + 2);
        let f = |i: int| candidate_name(base, i as nat);
        lemma_int_range(1, n + 2);
        assert(vstd::relations::injective_on(f, range)) by {
            assert forall|x: int, y: int| range.contains(x) && range.contains(y) && #[trigger] f(x) == #[trigger] f(
                y,
            ) implies x == y by {
                lemma_candidate_name_injective(base, x as nat, y as nat);
            }
        }
        let cands = range.map(f);
        lemma_map_size(range, cands, f);
        let all = names.to_set();
        names.lemma_cardinality_of_set();
        assert(cands.subset_of(all)) by {
            assert forall|s: Seq<char>| cands.contains(s) implies all.contains(s) by {
                let x = choose|x: int| range.contains(x) && f(x) == s;
                assert(names.contains(candidate_name(base, x as nat)));
            }
        }
        lemma_len_subset(cands, all);
        assert(false);
    }
}

} // verus!
