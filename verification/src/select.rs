//! Picking positions out of a sequence of flags, in ascending order. Both
//! a search and a filter end in this step.

use vstd::prelude::*;

verus! {

/// The positions of the flags that are set, in ascending order.
pub open spec fn selected(flags: Seq<bool>) -> Seq<int>
    decreases flags.len(),
{
    if flags.len() == 0 {
        Seq::empty()
    } else if flags.last() {
        selected(flags.drop_last()).push(flags.len() - 1)
    } else {
        selected(flags.drop_last())
    }
}

/// A sequence of machine indices, read as mathematical integers.
pub open spec fn as_ints(indices: Seq<usize>) -> Seq<int> {
    indices.map_values(|index: usize| index as int)
}

/// `selected` lists exactly the positions of the set flags, each once and
/// in strictly ascending order.
pub proof fn lemma_selected_is_ascending_and_exact(flags: Seq<bool>)
    ensures
        selected(flags).len() <= flags.len(),
        forall|k: int|
            0 <= k < selected(flags).len() ==> 0 <= #[trigger] selected(flags)[k] < flags.len()
                && flags[selected(flags)[k]],
        forall|a: int, b: int|
            0 <= a < b < selected(flags).len() ==> selected(flags)[a] < selected(flags)[b],
        forall|i: int| 0 <= i < flags.len() && flags[i] ==> selected(flags).contains(i),
    decreases flags.len(),
{
    if flags.len() > 0 {
        let init = flags.drop_last();
        lemma_selected_is_ascending_and_exact(init);
        let picked = selected(flags);
        assert forall|i: int| 0 <= i < flags.len() && flags[i] implies picked.contains(i) by {
            if i < init.len() {
                assert(init[i]);
                let k = choose|k: int| 0 <= k < selected(init).len() && selected(init)[k] == i;
                assert(picked[k] == i);
            } else {
                assert(picked[picked.len() - 1] == i);
            }
        }
    }
}

/// The positions of the flags that are set, in ascending order.
pub fn positions_of(flags: &Vec<bool>) -> (positions: Vec<usize>)
    ensures
        as_ints(positions@) == selected(flags@),
{
    let mut positions: Vec<usize> = Vec::new();
    let mut i: usize = 0;
    while i < flags.len()
        invariant
            i <= flags.len(),
            as_ints(positions@) == selected(flags@.take(i as int)),
        decreases flags.len() - i,
    {
        assert(flags@.take(i + 1).drop_last() =~= flags@.take(i as int));
        if flags[i] {
            assert(as_ints(positions@.push(i)) =~= as_ints(positions@).push(i as int));
            positions.push(i);
        }
        i += 1;
    }
    assert(flags@.take(flags.len() as int) =~= flags@);
    positions
}

} // verus!
