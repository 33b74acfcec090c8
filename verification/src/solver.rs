//! The 0/1 knapsack solver: table fill, backtracking, and its mathematical
//! model.
//!
//! `best` is the value recurrence, `chosen` the selection the table walk
//! reconstructs, and `sel_sum` the weight or value a selection vector picks
//! up. `knapsack` computes both results and its contract ties them to these
//! spec functions exactly.

use vstd::prelude::*;

verus! {

/// The sequence of integers a vector of `i32` values stands for.
pub open spec fn ints_of(s: Seq<i32>) -> Seq<int> {
    s.map_values(|x: i32| x as int)
}

/// Best total value achievable from the first `n` items with total weight
/// at most `w`, each item used at most once: the 0/1 knapsack recurrence.
pub open spec fn best(values: Seq<int>, weights: Seq<int>, n: int, w: int) -> int
    decreases n,
{
    if n <= 0 {
        0
    } else if weights[n - 1] <= w {
        let skip = best(values, weights, n - 1, w);
        let take = best(values, weights, n - 1, w - weights[n - 1]) + values[n - 1];
        if skip >= take {
            skip
        } else {
            take
        }
    } else {
        best(values, weights, n - 1, w)
    }
}

/// Sum of `items[j]` over the indices `j < n` whose selection flag is 1.
pub open spec fn sel_sum(items: Seq<int>, sel: Seq<i32>, n: int) -> int
    decreases n,
{
    if n <= 0 {
        0
    } else {
        sel_sum(items, sel, n - 1) + if sel[n - 1] == 1 {
            items[n - 1]
        } else {
            0
        }
    }
}

/// Every flag of the selection vector is 0 or 1.
pub open spec fn is_binary(sel: Seq<i32>) -> bool {
    forall|j: int| 0 <= j < sel.len() ==> sel[j] == 0 || sel[j] == 1
}

/// The selection the backtracking walk reconstructs for the first `n` items
/// at capacity `w`: item `n - 1` is taken exactly when taking it is what the
/// recurrence recorded, i.e. when `best` changes from row `n - 1` to row `n`.
pub open spec fn chosen(values: Seq<int>, weights: Seq<int>, n: int, w: int) -> Seq<i32>
    decreases n,
{
    if n <= 0 {
        Seq::empty()
    } else if best(values, weights, n, w) != best(values, weights, n - 1, w) {
        chosen(values, weights, n - 1, w - weights[n - 1]).push(1i32)
    } else {
        chosen(values, weights, n - 1, w).push(0i32)
    }
}

/// Sum of the first `n` entries of `items`.
pub open spec fn prefix_sum(items: Seq<int>, n: int) -> int
    decreases n,
{
    if n <= 0 {
        0
    } else {
        prefix_sum(items, n - 1) + items[n - 1]
    }
}

/// The reconstructed selection has one flag per item considered.
pub proof fn lemma_chosen_len(values: Seq<int>, weights: Seq<int>, n: int, w: int)
    requires
        n >= 0,
    ensures
        chosen(values, weights, n, w).len() == n,
    decreases n,
{
    if n > 0 {
        if best(values, weights, n, w) != best(values, weights, n - 1, w) {
            lemma_chosen_len(values, weights, n - 1, w - weights[n - 1]);
        } else {
            lemma_chosen_len(values, weights, n - 1, w);
        }
    }
}

/// With non-negative values, `best` lies between 0 and the sum of the first
/// `n` values.
pub proof fn lemma_best_bounds(values: Seq<int>, weights: Seq<int>, n: int, w: int)
    requires
        0 <= n <= values.len(),
        forall|j: int| 0 <= j < values.len() ==> values[j] >= 0,
    ensures
        0 <= best(values, weights, n, w) <= prefix_sum(values, n),
    decreases n,
{
    if n > 0 {
        lemma_best_bounds(values, weights, n - 1, w);
        lemma_best_bounds(values, weights, n - 1, w - weights[n - 1]);
    }
}

/// With non-negative entries, prefix sums grow with the prefix length.
pub proof fn lemma_prefix_sum_monotonic(items: Seq<int>, i: int, j: int)
    requires
        0 <= i <= j <= items.len(),
        forall|k: int| 0 <= k < items.len() ==> items[k] >= 0,
    ensures
        prefix_sum(items, i) <= prefix_sum(items, j),
    decreases j,
{
    if i < j {
        lemma_prefix_sum_monotonic(items, i, j - 1);
    }
}

/// Two selection vectors that agree below `n` pick up the same sum.
pub(crate) proof fn lemma_sel_sum_agree(items: Seq<int>, s1: Seq<i32>, s2: Seq<i32>, n: int)
    requires
        forall|k: int| 0 <= k < n ==> s1[k] == s2[k],
    ensures
        sel_sum(items, s1, n) == sel_sum(items, s2, n),
    decreases n,
{
    if n > 0 {
        lemma_sel_sum_agree(items, s1, s2, n - 1);
    }
}

/// A selection with every flag cleared picks up nothing.
proof fn lemma_sel_sum_zero(items: Seq<int>, sel: Seq<i32>, n: int)
    requires
        forall|k: int| 0 <= k < n ==> sel[k] == 0,
    ensures
        sel_sum(items, sel, n) == 0,
    decreases n,
{
    if n > 0 {
        lemma_sel_sum_zero(items, sel, n - 1);
    }
}

/// Raising one cleared flag adds exactly that item's entry to the sum.
proof fn lemma_sel_sum_update(items: Seq<int>, sel: Seq<i32>, j: int, n: int)
    requires
        0 <= j < n <= sel.len(),
        sel[j] == 0,
    ensures
        sel_sum(items, sel.update(j, 1i32), n) == sel_sum(items, sel, n) + items[j],
    decreases n,
{
    let sel2 = sel.update(j, 1i32);
    if j == n - 1 {
        lemma_sel_sum_agree(items, sel, sel2, n - 1);
    } else {
        lemma_sel_sum_update(items, sel, j, n - 1);
    }
}

/// A fresh vector of `len` zero flags.
fn zero_row(len: usize) -> (row: Vec<i32>)
    ensures
        row@.len() == len,
        forall|j: int| 0 <= j < len ==> row@[j] == 0,
{
    let mut row: Vec<i32> = Vec::new();
    let mut k: usize = 0;
    while k < len
        invariant
            k <= len,
            row@.len() == k,
            forall|j: int| 0 <= j < k ==> row@[j] == 0,
        decreases len - k,
    {
        row.push(0);
        k += 1;
    }
    row
}

/// Solves the 0/1 knapsack instance exactly: fills the `(n + 1) x (W + 1)`
/// table of the `best` recurrence row by row, reads the optimum off the last
/// cell, and walks the table backwards for one optimal selection.
///
/// Returns the optimal value and a vector of `n` inclusion flags; both are
/// determined by the input alone, so repeated calls on equal inputs return
/// equal results.
#[verifier::loop_isolation(false)]
pub fn knapsack(n: usize, capacity: usize, values: &Vec<i32>, weights: &Vec<i32>) -> (result: (
    i32,
    Vec<i32>,
))
    requires
        values@.len() == n,
        weights@.len() == n,
        n < usize::MAX,
        capacity < usize::MAX,
        forall|j: int| 0 <= j < n ==> #[trigger] values@[j] >= 1,
        forall|j: int| 0 <= j < n ==> #[trigger] weights@[j] >= 1,
        prefix_sum(ints_of(values@), n as int) <= i32::MAX,
    ensures
        result.0 as int == best(ints_of(values@), ints_of(weights@), n as int, capacity as int),
        result.1@.len() == n,
        is_binary(result.1@),
        result.1@ == chosen(ints_of(values@), ints_of(weights@), n as int, capacity as int),
        sel_sum(ints_of(weights@), result.1@, n as int) <= capacity,
        sel_sum(ints_of(values@), result.1@, n as int) == result.0 as int,
{
    let ghost vals: Seq<int> = ints_of(values@);
    let ghost wts: Seq<int> = ints_of(weights@);

    let mut dp: Vec<Vec<i32>> = Vec::new();
    dp.push(zero_row(capacity + 1));
    let mut i: usize = 1;
    while i <= n
        invariant
            1 <= i <= n + 1,
            dp@.len() == i,
            forall|ii: int| 0 <= ii < i ==> (#[trigger] dp@[ii])@.len() == capacity + 1,
            forall|ii: int, ww: int|
                0 <= ii < i && 0 <= ww <= capacity ==> (#[trigger] dp@[ii]@[ww]) as int == best(
                    vals,
                    wts,
                    ii,
                    ww,
                ),
        decreases n + 1 - i,
    {
        let mut row: Vec<i32> = Vec::new();
        let mut w: usize = 0;
        while w <= capacity
            invariant
                w <= capacity + 1,
                row@.len() == w,
                forall|ww: int|
                    0 <= ww < w ==> (#[trigger] row@[ww]) as int == best(vals, wts, i as int, ww),
            decreases capacity + 1 - w,
        {
            let wt = weights[i - 1];
            let cell: i32;
            if wt as usize <= w {
                let skip = dp[i - 1][w];
                let take_prev = dp[i - 1][w - wt as usize];
                proof {
                    lemma_best_bounds(vals, wts, i - 1, w - wt);
                    lemma_prefix_sum_monotonic(vals, i as int, n as int);
                }
                let take = take_prev + values[i - 1];
                cell = if skip >= take {
                    skip
                } else {
                    take
                };
            } else {
                cell = dp[i - 1][w];
            }
            row.push(cell);
            w += 1;
        }
        dp.push(row);
        i += 1;
    }

    let optimal = dp[n][capacity];
    let mut selected = zero_row(n);
    let mut w: usize = capacity;
    let mut i: usize = n;
    proof {
        lemma_chosen_len(vals, wts, n as int, capacity as int);
        lemma_sel_sum_zero(vals, selected@, n as int);
        lemma_sel_sum_zero(wts, selected@, n as int);
        assert(selected@.subrange(n as int, n as int) =~= Seq::<i32>::empty());
        assert(chosen(vals, wts, n as int, capacity as int) =~= chosen(
            vals,
            wts,
            n as int,
            capacity as int,
        ) + selected@.subrange(n as int, n as int));
    }
    while i >= 1
        invariant
            i <= n,
            w <= capacity,
            selected@.len() == n,
            forall|j: int| 0 <= j < i ==> selected@[j] == 0,
            is_binary(selected@),
            chosen(vals, wts, n as int, capacity as int) == chosen(vals, wts, i as int, w as int)
                + selected@.subrange(i as int, n as int),
            sel_sum(vals, selected@, n as int) + best(vals, wts, i as int, w as int) == best(
                vals,
                wts,
                n as int,
                capacity as int,
            ),
            sel_sum(wts, selected@, n as int) == capacity - w,
        decreases i,
    {
        proof {
            lemma_chosen_len(vals, wts, i as int, w as int);
        }
        let wt = weights[i - 1];
        let with_item = dp[i][w];
        let without_item = dp[i - 1][w];
        if with_item != without_item {
            let ghost sel_old = selected@;
            proof {
                lemma_chosen_len(vals, wts, i - 1, w - wt);
                lemma_sel_sum_update(vals, sel_old, i - 1, n as int);
                lemma_sel_sum_update(wts, sel_old, i - 1, n as int);
            }
            selected[i - 1] = 1;
            w = w - wt as usize;
            proof {
                assert(selected@.subrange(i - 1, n as int) =~= seq![1i32]
                    + sel_old.subrange(i as int, n as int));
                assert(chosen(vals, wts, i - 1, w as int).push(1i32) + sel_old.subrange(
                    i as int,
                    n as int,
                ) =~= chosen(vals, wts, i - 1, w as int) + selected@.subrange(i - 1, n as int));
            }
        } else {
            proof {
                lemma_chosen_len(vals, wts, i - 1, w as int);
                assert(selected@.subrange(i - 1, n as int) =~= seq![0i32]
                    + selected@.subrange(i as int, n as int));
                assert(chosen(vals, wts, i - 1, w as int).push(0i32) + selected@.subrange(
                    i as int,
                    n as int,
                ) =~= chosen(vals, wts, i - 1, w as int) + selected@.subrange(i - 1, n as int));
            }
        }
        i -= 1;
    }
    proof {
        assert(selected@.subrange(0, n as int) =~= selected@);
    }
    (optimal, selected)
}

} // verus!
