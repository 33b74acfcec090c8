use knapsack::solver::knapsack;

/// Exhaustive reference: best value over all subsets whose weight fits.
fn brute_force(capacity: usize, values: &[i32], weights: &[i32]) -> i32 {
    let n = values.len();
    assert!(n <= 20);
    let mut best = 0i64;
    for mask in 0u32..(1u32 << n) {
        let mut value = 0i64;
        let mut weight = 0i64;
        for j in 0..n {
            if mask & (1 << j) != 0 {
                value += values[j] as i64;
                weight += weights[j] as i64;
            }
        }
        if weight <= capacity as i64 && value > best {
            best = value;
        }
    }
    best as i32
}

fn check_selection(capacity: usize, values: &[i32], weights: &[i32], optimal: i32, sel: &[i32]) {
    assert_eq!(sel.len(), values.len());
    let mut value = 0i64;
    let mut weight = 0i64;
    for j in 0..sel.len() {
        assert!(sel[j] == 0 || sel[j] == 1);
        if sel[j] == 1 {
            value += values[j] as i64;
            weight += weights[j] as i64;
        }
    }
    assert!(weight <= capacity as i64);
    assert_eq!(value, optimal as i64);
}

#[test]
fn reference_scenario() {
    let values = vec![8, 10, 15, 4];
    let weights = vec![4, 5, 8, 3];
    let (optimal, sel) = knapsack(4, 11, &values, &weights);
    assert_eq!(optimal, 19);
    assert_eq!(sel, vec![0, 0, 1, 1]);
}

#[test]
fn matches_brute_force_on_small_instances() {
    let instances: Vec<(usize, Vec<i32>, Vec<i32>)> = vec![
        (1, vec![7], vec![2]),
        (7, vec![3, 4, 5], vec![2, 3, 4]),
        (10, vec![60, 100, 120], vec![1, 2, 3]),
        (9, vec![2, 2, 4, 5, 3], vec![3, 1, 4, 2, 6]),
        (15, vec![1, 9, 8, 7, 6, 5, 4, 3], vec![2, 11, 5, 6, 3, 9, 1, 4]),
        (5, vec![10, 10, 10], vec![6, 7, 8]),
        (100, vec![5, 5, 5], vec![1, 1, 1]),
    ];
    for (capacity, values, weights) in instances {
        let n = values.len();
        let (optimal, sel) = knapsack(n, capacity, &values, &weights);
        assert_eq!(optimal, brute_force(capacity, &values, &weights));
        check_selection(capacity, &values, &weights, optimal, &sel);
    }
}

#[test]
fn selection_sums_match_value_and_fit_capacity() {
    let values = vec![12, 7, 20, 1, 9, 14];
    let weights = vec![5, 3, 9, 1, 4, 6];
    for capacity in 0..30 {
        let (optimal, sel) = knapsack(6, capacity, &values, &weights);
        check_selection(capacity, &values, &weights, optimal, &sel);
    }
}

#[test]
fn capacity_monotonicity() {
    let values = vec![12, 7, 20, 1, 9, 14];
    let weights = vec![5, 3, 9, 1, 4, 6];
    let mut last = 0;
    for capacity in 0..30 {
        let (optimal, _) = knapsack(6, capacity, &values, &weights);
        assert!(optimal >= last);
        last = optimal;
    }
}

#[test]
fn extra_item_monotonicity() {
    let mut values = vec![8, 10, 15, 4];
    let mut weights = vec![4, 5, 8, 3];
    let (before, _) = knapsack(4, 11, &values, &weights);
    values.push(9);
    weights.push(2);
    let (after, _) = knapsack(5, 11, &values, &weights);
    assert!(after >= before);
    assert_eq!(after, brute_force(11, &values, &weights));
}

#[test]
fn no_items_gives_zero_and_empty_selection() {
    let values: Vec<i32> = vec![];
    let weights: Vec<i32> = vec![];
    let (optimal, sel) = knapsack(0, 100, &values, &weights);
    assert_eq!(optimal, 0);
    assert!(sel.is_empty());
}

#[test]
fn zero_capacity_gives_zero_and_all_zero_selection() {
    let values = vec![8, 10, 15, 4];
    let weights = vec![4, 5, 8, 3];
    let (optimal, sel) = knapsack(4, 0, &values, &weights);
    assert_eq!(optimal, 0);
    assert_eq!(sel, vec![0, 0, 0, 0]);
}

#[test]
fn no_item_fits() {
    let values = vec![5, 6, 7];
    let weights = vec![10, 11, 12];
    let (optimal, sel) = knapsack(3, 9, &values, &weights);
    assert_eq!(optimal, 0);
    assert_eq!(sel, vec![0, 0, 0]);
}

#[test]
fn every_item_fits() {
    let values = vec![5, 6, 7];
    let weights = vec![1, 2, 3];
    let (optimal, sel) = knapsack(3, 10, &values, &weights);
    assert_eq!(optimal, 18);
    assert_eq!(sel, vec![1, 1, 1]);
}

#[test]
fn tied_items_give_one_valid_optimum() {
    let values = vec![5, 5, 5, 5];
    let weights = vec![3, 3, 3, 3];
    let (optimal, sel) = knapsack(4, 6, &values, &weights);
    assert_eq!(optimal, 10);
    check_selection(6, &values, &weights, optimal, &sel);
}

#[test]
fn single_item_boundary_weight() {
    let values = vec![42];
    let weights = vec![7];
    let (too_small, sel_small) = knapsack(1, 6, &values, &weights);
    assert_eq!(too_small, 0);
    assert_eq!(sel_small, vec![0]);
    let (exact, sel_exact) = knapsack(1, 7, &values, &weights);
    assert_eq!(exact, 42);
    assert_eq!(sel_exact, vec![1]);
}

#[test]
fn larger_instance_yields_a_consistent_optimum() {
    // A fixed linear-congruential sequence keeps the instance deterministic.
    let mut state: u64 = 12345;
    let mut next = move || {
        state = state.wrapping_mul(6364136223846793005).wrapping_add(1442695040888963407);
        (state >> 33) as i32
    };
    let n = 200;
    let values: Vec<i32> = (0..n).map(|_| next() % 1000 + 1).collect();
    let weights: Vec<i32> = (0..n).map(|_| next() % 100 + 1).collect();
    let (optimal, sel) = knapsack(n, 500, &values, &weights);
    check_selection(500, &values, &weights, optimal, &sel);
    let (wider, _) = knapsack(n, 600, &values, &weights);
    assert!(wider >= optimal);
}

#[test]
fn repeated_calls_are_identical() {
    let values = vec![12, 7, 20, 1, 9, 14];
    let weights = vec![5, 3, 9, 1, 4, 6];
    let first = knapsack(6, 17, &values, &weights);
    let second = knapsack(6, 17, &values, &weights);
    assert_eq!(first, second);
}
