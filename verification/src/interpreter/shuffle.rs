//! The swaps of the builtin `shuffle`: a Fisher–Yates pass from the last
//! position down, each position `i` swapped with the drawn position
//! `draws[i]` (at most `i`). Drawing is the caller's: the draws come from
//! the random generator.
use vstd::prelude::*;
use crate::interpreter::values_model;
use crate::value::{Value, ValueModel};

verus! {

/// `xs` with the items at `i` and `j` exchanged.
pub open spec fn swapped(xs: Seq<ValueModel>, i: int, j: int) -> Seq<ValueModel> {
    xs.update(i, xs[j]).update(j, xs[i])
}

/// The pass over positions `i` down to 1 applied to `xs`.
pub open spec fn shuffle_pass(xs: Seq<ValueModel>, draws: Seq<usize>, i: int) -> Seq<ValueModel>
    decreases i,
{
    if i < 1 {
        xs
    } else {
        let j = if draws[i] < i { draws[i] as int } else { i };
        shuffle_pass(swapped(xs, i, j), draws, i - 1)
    }
}

/// The items `shuffle` leaves `xs` in, given the draws.
pub open spec fn shuffle_result(xs: Seq<ValueModel>, draws: Seq<usize>) -> Seq<ValueModel> {
    shuffle_pass(xs, draws, xs.len() - 1)
}

/// Shuffles `items` in place with the given draws.
pub fn shuffle_with(items: &mut Vec<Value>, draws: &[usize])
    requires
        draws@.len() >= old(items)@.len(),
    ensures
        values_model(final(items)@) == shuffle_result(values_model(old(items)@), draws@),
{
    let n = items.len();
    if n < 2 {
        return;
    }
    let ghost target = shuffle_result(values_model(items@), draws@);
    let mut i: usize = n - 1;
    while i >= 1
        invariant
            items@.len() == n,
            draws@.len() >= n,
            i < n,
            shuffle_pass(values_model(items@), draws@, i as int) == target,
        decreases i,
    {
        let j = if draws[i] < i { draws[i] } else { i };
        let ghost before = values_model(items@);
        let vi = items[i].deep_copy();
        let vj = items[j].deep_copy();
        items[i] = vj;
        items[j] = vi;
        assert(values_model(items@) =~= swapped(before, i as int, j as int));
        i = i - 1;
    }
}

/// Exchanging two items keeps the same items.
proof fn lemma_swap_keeps_items(xs: Seq<ValueModel>, i: int, j: int)
    requires
        0 <= i < xs.len(),
        0 <= j < xs.len(),
    ensures
        swapped(xs, i, j).to_multiset() == xs.to_multiset(),
        swapped(xs, i, j).len() == xs.len(),
{
    broadcast use vstd::seq_lib::to_multiset_update, vstd::seq_lib::to_multiset_contains, vstd::multiset::group_multiset_axioms;

    assert(xs.contains(xs[i]) && xs.contains(xs[j]));
    let m = xs.to_multiset();
    assert(m.count(xs[i]) > 0 && m.count(xs[j]) > 0);
    let t = xs.update(i, xs[j]);
    assert(t.to_multiset() == xs.to_multiset().insert(xs[j]).remove(xs[i]));
    assert(t[j] == xs[j]);
    assert(t.update(j, xs[i]).to_multiset() == t.to_multiset().insert(xs[i]).remove(t[j]));
    assert forall|x: ValueModel| #[trigger] swapped(xs, i, j).to_multiset().count(x) == m.count(x) by {}
    assert(swapped(xs, i, j).to_multiset() =~= xs.to_multiset());
}

/// A shuffle keeps the same items, each as often as before, whatever the
/// draws.
pub proof fn lemma_shuffle_keeps_items(xs: Seq<ValueModel>, draws: Seq<usize>, i: int)
    requires
        i < xs.len(),
        draws.len() >= xs.len(),
    ensures
        shuffle_pass(xs, draws, i).to_multiset() == xs.to_multiset(),
        shuffle_pass(xs, draws, i).len() == xs.len(),
    decreases i,
{
    if i >= 1 {
        let j = if draws[i] < i { draws[i] as int } else { i };
        lemma_swap_keeps_items(xs, i, j);
        lemma_shuffle_keeps_items(swapped(xs, i, j), draws, i - 1);
    }
}

} // verus!
