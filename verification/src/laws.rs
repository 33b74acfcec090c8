//! General facts about the knapsack optimum, proved once and for all:
//! optimality of `best` over every selection within capacity, monotonicity
//! in the capacity and in the item set, and the degenerate inputs.

use vstd::prelude::*;

use crate::solver::best;
use crate::solver::chosen;
use crate::solver::is_binary;
use crate::solver::lemma_chosen_len;
use crate::solver::lemma_sel_sum_agree;
use crate::solver::sel_sum;

verus! {

/// No selection of the first `n` items whose weight fits in `w` picks up
/// more value than `best`: together with the selection the solver returns,
/// `best` is exactly the maximum over all such selections.
pub proof fn lemma_no_selection_beats_best(
    values: Seq<int>,
    weights: Seq<int>,
    sel: Seq<i32>,
    n: int,
    w: int,
)
    requires
        0 <= n <= values.len(),
        values.len() == weights.len(),
        forall|j: int| 0 <= j < n ==> weights[j] >= 0,
        sel_sum(weights, sel, n) <= w,
    ensures
        sel_sum(values, sel, n) <= best(values, weights, n, w),
    decreases n,
{
    if n > 0 {
        if sel[n - 1] == 1 {
            lemma_sel_sum_nonneg(weights, sel, n - 1);
            lemma_no_selection_beats_best(values, weights, sel, n - 1, w - weights[n - 1]);
        } else {
            lemma_no_selection_beats_best(values, weights, sel, n - 1, w);
        }
    }
}

/// A selection of items with non-negative entries picks up a non-negative sum.
proof fn lemma_sel_sum_nonneg(items: Seq<int>, sel: Seq<i32>, n: int)
    requires
        forall|j: int| 0 <= j < n ==> items[j] >= 0,
    ensures
        sel_sum(items, sel, n) >= 0,
    decreases n,
{
    if n > 0 {
        lemma_sel_sum_nonneg(items, sel, n - 1);
    }
}

/// The reconstructed selection is itself a selection that fits the capacity
/// and picks up exactly the optimal value: the optimum is not only an upper
/// bound but is attained.
pub proof fn lemma_chosen_achieves_best(values: Seq<int>, weights: Seq<int>, n: int, w: int)
    requires
        0 <= n <= values.len(),
        values.len() == weights.len(),
        w >= 0,
    ensures
        is_binary(chosen(values, weights, n, w)),
        sel_sum(weights, chosen(values, weights, n, w), n) <= w,
        sel_sum(values, chosen(values, weights, n, w), n) == best(values, weights, n, w),
    decreases n,
{
    lemma_chosen_len(values, weights, n, w);
    if n > 0 {
        let c = chosen(values, weights, n, w);
        if best(values, weights, n, w) != best(values, weights, n - 1, w) {
            let prev = chosen(values, weights, n - 1, w - weights[n - 1]);
            lemma_chosen_len(values, weights, n - 1, w - weights[n - 1]);
            lemma_chosen_achieves_best(values, weights, n - 1, w - weights[n - 1]);
            lemma_sel_sum_agree(values, prev, c, n - 1);
            lemma_sel_sum_agree(weights, prev, c, n - 1);
        } else {
            let prev = chosen(values, weights, n - 1, w);
            lemma_chosen_len(values, weights, n - 1, w);
            lemma_chosen_achieves_best(values, weights, n - 1, w);
            lemma_sel_sum_agree(values, prev, c, n - 1);
            lemma_sel_sum_agree(weights, prev, c, n - 1);
        }
    }
}

/// Widening the capacity never lowers the optimum.
pub proof fn lemma_capacity_monotonic(
    values: Seq<int>,
    weights: Seq<int>,
    n: int,
    w1: int,
    w2: int,
)
    requires
        n >= 0,
        w1 <= w2,
    ensures
        best(values, weights, n, w1) <= best(values, weights, n, w2),
    decreases n,
{
    if n > 0 {
        lemma_capacity_monotonic(values, weights, n - 1, w1, w2);
        lemma_capacity_monotonic(
            values,
            weights,
            n - 1,
            w1 - weights[n - 1],
            w2 - weights[n - 1],
        );
    }
}

/// Considering one more of the items never lowers the optimum: the table
/// of `best` values is non-decreasing down each column.
pub proof fn lemma_item_count_monotonic(values: Seq<int>, weights: Seq<int>, n: int, w: int)
    requires
        n >= 1,
    ensures
        best(values, weights, n - 1, w) <= best(values, weights, n, w),
{
}

/// `best` reads only the first `n` entries of the item sequences.
proof fn lemma_best_prefix_agree(
    v1: Seq<int>,
    w1: Seq<int>,
    v2: Seq<int>,
    w2: Seq<int>,
    n: int,
    w: int,
)
    requires
        forall|j: int| 0 <= j < n ==> v1[j] == v2[j],
        forall|j: int| 0 <= j < n ==> w1[j] == w2[j],
    ensures
        best(v1, w1, n, w) == best(v2, w2, n, w),
    decreases n,
{
    if n > 0 {
        lemma_best_prefix_agree(v1, w1, v2, w2, n - 1, w);
        lemma_best_prefix_agree(v1, w1, v2, w2, n - 1, w - w1[n - 1]);
    }
}

/// Appending one more item to the set never lowers the optimum.
pub proof fn lemma_extra_item_monotonic(
    values: Seq<int>,
    weights: Seq<int>,
    value: int,
    weight: int,
    w: int,
)
    requires
        values.len() == weights.len(),
    ensures
        best(values, weights, values.len() as int, w) <= best(
            values.push(value),
            weights.push(weight),
            values.len() as int + 1,
            w,
        ),
{
    let n = values.len() as int;
    lemma_best_prefix_agree(values, weights, values.push(value), weights.push(weight), n, w);
    lemma_best_prefix_agree(
        values,
        weights,
        values.push(value),
        weights.push(weight),
        n,
        w - weight,
    );
}

/// With no items at all the optimum is zero and the selection empty.
pub proof fn lemma_no_items(values: Seq<int>, weights: Seq<int>, w: int)
    ensures
        best(values, weights, 0, w) == 0,
        chosen(values, weights, 0, w) == Seq::<i32>::empty(),
{
}

/// With zero capacity and strictly positive weights nothing fits: the
/// optimum is zero and every selection flag stays cleared.
pub proof fn lemma_zero_capacity(values: Seq<int>, weights: Seq<int>, n: int)
    requires
        n >= 0,
        forall|j: int| 0 <= j < n ==> weights[j] >= 1,
    ensures
        best(values, weights, n, 0) == 0,
        chosen(values, weights, n, 0) =~= Seq::new(n as nat, |j: int| 0i32),
    decreases n,
{
    if n > 0 {
        lemma_zero_capacity(values, weights, n - 1);
    }
}

} // verus!
