use loob::{
    bottleneck_cost, median_edge_keys, reverse_segment, validate_initial_ordering, validate_matrix, GreedyNn,
    OptimError, NEG_INFINITY_KEY, POS_INFINITY_KEY, ZERO_KEY,
};

/// The total-order key of a cost (`-0.0` counts as `0.0`).
fn key(x: f64) -> u64 {
    let x = if x == 0.0 { 0.0 } else { x };
    let bits = x.to_bits();
    if bits >> 63 == 1 {
        !bits
    } else {
        bits | (1u64 << 63)
    }
}

/// The cost a key stands for.
fn value(k: u64) -> f64 {
    let bits = if k >> 63 == 1 { k & !(1u64 << 63) } else { !k };
    f64::from_bits(bits)
}

fn keys(m: Vec<Vec<f64>>) -> Vec<Vec<u64>> {
    m.into_iter()
        .map(|row| row.into_iter().map(key).collect())
        .collect()
}

fn identity_matrix(n: usize) -> Vec<Vec<f64>> {
    let mut m = vec![vec![0.0; n]; n];
    for (i, row) in m.iter_mut().enumerate() {
        for (j, value) in row.iter_mut().enumerate() {
            if i != j {
                *value = 1.0;
            }
        }
    }
    m
}

/// A simple asymmetric chain: 0→1→2→3 is cheap, everything else is expensive.
fn chain_matrix() -> Vec<Vec<f64>> {
    let n = 4;
    let mut m = vec![vec![10.0; n]; n];
    for (i, row) in m.iter_mut().enumerate() {
        row[i] = 0.0;
    }
    m[0][1] = 1.0;
    m[1][2] = 1.0;
    m[2][3] = 1.0;
    m[1][0] = 8.0;
    m[2][1] = 8.0;
    m[3][2] = 8.0;
    m
}

/// Asymmetric ring: 0→1→2→3→0 is the optimal tour.
fn ring_matrix() -> Vec<Vec<f64>> {
    let n = 4;
    let mut m = vec![vec![100.0; n]; n];
    for (i, row) in m.iter_mut().enumerate() {
        row[i] = 0.0;
    }
    m[0][1] = 1.0;
    m[1][2] = 2.0;
    m[2][3] = 1.0;
    m[3][0] = 2.0;
    m[1][0] = 50.0;
    m[2][1] = 50.0;
    m[3][2] = 50.0;
    m[0][3] = 50.0;
    m
}

#[test]
fn empty_matrix_errors() {
    let m: Vec<Vec<u64>> = vec![];
    assert!(matches!(validate_matrix(&m), Err(OptimError::EmptyMatrix)));
}

#[test]
fn non_square_matrix_errors() {
    let m = keys(vec![vec![0.0, 1.0], vec![1.0]]);
    assert!(matches!(
        validate_matrix(&m),
        Err(OptimError::NotSquare { .. })
    ));
}

#[test]
fn valid_matrix_returns_size() {
    let m = keys(identity_matrix(5));
    assert_eq!(validate_matrix(&m).unwrap(), 5);
}

#[test]
fn bottleneck_cost_finds_max_edge() {
    let m = keys(chain_matrix());
    assert_eq!(value(bottleneck_cost(&m, &[0, 1, 2, 3])), 1.0);
    assert_eq!(value(bottleneck_cost(&m, &[3, 2, 1, 0])), 8.0);
}

#[test]
fn greedy_finds_forward_chain() {
    let m = keys(chain_matrix());
    let result = GreedyNn.optimize(&m).unwrap();
    assert_eq!(result, vec![0, 1, 2, 3]);
}

#[test]
fn greedy_respects_asymmetry() {
    let m = keys(ring_matrix());
    let result = GreedyNn.optimize(&m).unwrap();
    assert_eq!(value(bottleneck_cost(&m, &result)), 2.0);
}

#[test]
fn greedy_single_node() {
    let m = keys(vec![vec![0.0]]);
    let result = GreedyNn.optimize(&m).unwrap();
    assert_eq!(result, vec![0]);
}

#[test]
fn greedy_two_nodes() {
    let m = keys(vec![vec![0.0, 5.0], vec![3.0, 0.0]]);
    let result = GreedyNn.optimize(&m).unwrap();
    assert_eq!(result, vec![1, 0]);
}

#[test]
fn asymmetric_distance_is_directional() {
    // Tail of A, head of B vs tail of B, head of A should differ
    let tail_a = vec![1.0, 0.0, 0.0];
    let head_a = vec![0.0, 0.0, 1.0];
    let tail_b = vec![0.0, 1.0, 0.0];
    let head_b = vec![1.0, 0.0, 0.0]; // close to tail_a

    let global_a = vec![0.5, 0.0, 0.5];
    let global_b = vec![0.5, 0.5, 0.0];

    let alpha = 0.6;

    // d(A→B): alpha * dist(tail_a, head_b) + (1-alpha) * dist(global_a, global_b)
    let d_ab =
        alpha * euclidean(&tail_a, &head_b) + (1.0 - alpha) * euclidean(&global_a, &global_b);
    // d(B→A): alpha * dist(tail_b, head_a) + (1-alpha) * dist(global_b, global_a)
    let d_ba =
        alpha * euclidean(&tail_b, &head_a) + (1.0 - alpha) * euclidean(&global_b, &global_a);

    // tail_a == head_b, so transition A→B is 0. But tail_b ≠ head_a.
    assert!(
        d_ab < d_ba,
        "A→B should be cheaper since tail_a matches head_b"
    );
    assert!((d_ab - (1.0 - alpha) * euclidean(&global_a, &global_b)).abs() < 1e-10);
}

fn euclidean(a: &[f64], b: &[f64]) -> f64 {
    a.iter()
        .zip(b)
        .map(|(x, y)| (x - y).powi(2))
        .sum::<f64>()
        .sqrt()
}

#[test]
fn keys_order_like_the_costs_they_stand_for() {
    assert_eq!(key(0.0), ZERO_KEY);
    assert_eq!(key(-0.0), ZERO_KEY);
    assert_eq!(key(f64::INFINITY), POS_INFINITY_KEY);
    assert_eq!(key(f64::NEG_INFINITY), NEG_INFINITY_KEY);
    let costs = [-3.5, -1.0, 0.0, 0.25, 1.0, 8.0, 1e300];
    for pair in costs.windows(2) {
        assert!(key(pair[0]) < key(pair[1]));
    }
    for &c in &costs {
        assert_eq!(value(key(c)), c);
    }
}

#[test]
fn non_finite_cost_is_reported_with_its_position() {
    let mut m = identity_matrix(3);
    m[1][2] = f64::NAN;
    m[2][0] = f64::INFINITY;
    let m = keys(m);
    assert_eq!(
        validate_matrix(&m),
        Err(OptimError::NonFinite { row: 1, col: 2 })
    );
    assert_eq!(
        GreedyNn.optimize(&m),
        Err(OptimError::NonFinite { row: 1, col: 2 })
    );
}

#[test]
fn not_square_reports_the_first_bad_row() {
    let m = keys(vec![vec![0.0, 1.0, 2.0], vec![1.0, 0.0, 2.0], vec![1.0, 2.0]]);
    assert_eq!(
        validate_matrix(&m),
        Err(OptimError::NotSquare { rows: 3, cols: 2 })
    );
}

#[test]
fn bottleneck_of_a_single_node_is_zero() {
    let m = keys(identity_matrix(1));
    assert_eq!(bottleneck_cost(&m, &[0]), ZERO_KEY);
    assert_eq!(bottleneck_cost(&m, &[]), ZERO_KEY);
}

#[test]
fn negative_costs_never_lower_the_bottleneck_below_zero() {
    let m = keys(vec![vec![0.0, -2.0], vec![-1.0, 0.0]]);
    assert_eq!(value(bottleneck_cost(&m, &[0, 1])), 0.0);
}

#[test]
fn initial_ordering_must_be_a_permutation() {
    let m = keys(identity_matrix(3));
    assert_eq!(validate_initial_ordering(&m, &vec![2, 0, 1]), Ok(()));
    assert_eq!(
        validate_initial_ordering(&m, &vec![0, 1]),
        Err(OptimError::InvalidOrdering)
    );
    assert_eq!(
        validate_initial_ordering(&m, &vec![0, 1, 1]),
        Err(OptimError::InvalidOrdering)
    );
    assert_eq!(
        validate_initial_ordering(&m, &vec![0, 1, 3]),
        Err(OptimError::InvalidOrdering)
    );
    let empty: Vec<Vec<u64>> = vec![];
    assert_eq!(
        validate_initial_ordering(&empty, &vec![]),
        Err(OptimError::EmptyMatrix)
    );
}

#[test]
fn reversing_a_segment_keeps_every_row_once() {
    let mut order = vec![0, 1, 2, 3, 4, 5];
    reverse_segment(&mut order, 1, 4);
    assert_eq!(order, vec![0, 4, 3, 2, 1, 5]);
    reverse_segment(&mut order, 2, 2);
    assert_eq!(order, vec![0, 4, 3, 2, 1, 5]);
    let m = keys(identity_matrix(6));
    assert_eq!(validate_initial_ordering(&m, &order), Ok(()));
}

#[test]
fn greedy_breaks_ties_by_the_earliest_start() {
    let m = keys(identity_matrix(4));
    assert_eq!(GreedyNn.optimize(&m).unwrap(), vec![0, 1, 2, 3]);
}

#[test]
fn greedy_bottleneck_is_no_worse_than_any_start() {
    let m = keys(vec![
        vec![0.0, 3.0, 7.0, 2.0, 9.0, 1.0],
        vec![8.0, 0.0, 4.0, 6.0, 1.0, 5.0],
        vec![2.0, 9.0, 0.0, 3.0, 7.0, 4.0],
        vec![5.0, 1.0, 8.0, 0.0, 4.0, 6.0],
        vec![3.0, 7.0, 2.0, 9.0, 0.0, 8.0],
        vec![6.0, 4.0, 1.0, 5.0, 3.0, 0.0],
    ]);
    let result = GreedyNn.optimize(&m).unwrap();
    let mut sorted = result.clone();
    sorted.sort();
    assert_eq!(sorted, vec![0, 1, 2, 3, 4, 5]);
    let best = bottleneck_cost(&m, &result);
    for start in 0..6 {
        // The walk from `start`: always the cheapest unvisited next row.
        let mut walk = vec![start];
        let mut visited = vec![false; 6];
        visited[start] = true;
        while walk.len() < 6 {
            let from = *walk.last().unwrap();
            let next = (0..6)
                .filter(|&j| !visited[j])
                .min_by_key(|&j| (m[from][j], j))
                .unwrap();
            visited[next] = true;
            walk.push(next);
        }
        assert!(best <= bottleneck_cost(&m, &walk));
    }
}

#[test]
fn median_edges_of_an_even_count_are_the_two_middle_costs() {
    let m = keys(vec![
        vec![0.0, 1.0, 3.0],
        vec![2.0, 0.0, 4.0],
        vec![5.0, 6.0, 0.0],
    ]);
    let (low, high) = median_edge_keys(&m).unwrap().unwrap();
    assert_eq!((value(low), value(high)), (3.0, 4.0));
}

#[test]
fn median_edge_of_an_odd_count_is_the_middle_cost() {
    let m = keys(vec![
        vec![0.0, 7.0, 0.0],
        vec![-1.0, 0.0, 2.0],
        vec![9.0, 0.0, 0.0],
    ]);
    let (low, high) = median_edge_keys(&m).unwrap().unwrap();
    assert_eq!((value(low), value(high)), (7.0, 7.0));
}

#[test]
fn median_edges_skip_the_diagonal_and_non_positive_costs() {
    let m = keys(vec![vec![5.0, 0.0], vec![-3.0, 8.0]]);
    assert_eq!(median_edge_keys(&m), Ok(None));
    assert_eq!(median_edge_keys(&Vec::new()), Err(OptimError::EmptyMatrix));
}
