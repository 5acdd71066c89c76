//! Deterministic path optimization over a directed edge-cost matrix.
//!
//! An edge cost is carried as the order key of its IEEE-754 double: the bit
//! pattern with only the sign bit flipped for non-negative values and with all
//! bits flipped for negative ones.  Keys compare exactly as the doubles they
//! stand for, so the maximum of costs and the nearest neighbour are found on
//! keys without rounding.  The non-finite doubles are exactly the keys outside
//! the open interval `(NEG_INFINITY_KEY, POS_INFINITY_KEY)`.
use vstd::prelude::*;

verus! {

/// Order key of negative infinity.
pub const NEG_INFINITY_KEY: u64 = 0x000f_ffff_ffff_ffffu64;

/// Order key of positive infinity.
pub const POS_INFINITY_KEY: u64 = 0xfff0_0000_0000_0000u64;

/// Order key of positive zero, the cost of a path without edges.
pub const ZERO_KEY: u64 = 0x8000_0000_0000_0000u64;

/// Why a cost matrix or an initial ordering was rejected.
#[derive(Debug, Clone, Copy, PartialEq, Eq)]
pub enum OptimError {
    EmptyMatrix,
    NotSquare { rows: usize, cols: usize },
    NonFinite { row: usize, col: usize },
    InvalidOrdering,
}

/// A key that stands for a finite double.
pub open spec fn is_finite_key(key: u64) -> bool {
    NEG_INFINITY_KEY < key < POS_INFINITY_KEY
}

/// Row `i` has one finite cost for every row of the matrix.
pub open spec fn row_is_valid(m: Seq<Seq<u64>>, i: int) -> bool {
    &&& m[i].len() == m.len()
    &&& forall|j: int| 0 <= j < m[i].len() ==> is_finite_key(#[trigger] m[i][j])
}

/// A non-empty square matrix of finite costs.
pub open spec fn is_valid_matrix(m: Seq<Seq<u64>>) -> bool {
    &&& m.len() > 0
    &&& forall|i: int| 0 <= i < m.len() ==> #[trigger] row_is_valid(m, i)
}

/// Row `i` is the first row that is too short, too long or holds a
/// non-finite cost.
pub open spec fn is_first_bad_row(m: Seq<Seq<u64>>, i: int) -> bool {
    &&& 0 <= i < m.len()
    &&& !row_is_valid(m, i)
    &&& forall|k: int| 0 <= k < i ==> #[trigger] row_is_valid(m, k)
}

/// What validating matrix `m` yields: its size, or the error of the first
/// bad row in row-major order.
pub open spec fn validation_outcome(m: Seq<Seq<u64>>, outcome: Result<usize, OptimError>) -> bool {
    match outcome {
        Ok(n) => n == m.len() && is_valid_matrix(m),
        Err(OptimError::EmptyMatrix) => m.len() == 0,
        Err(OptimError::NotSquare { rows, cols }) => exists|i: int|
            #[trigger] is_first_bad_row(m, i) && rows == m.len() && m[i].len() != m.len() && cols
                == m[i].len(),
        Err(OptimError::NonFinite { row, col }) => {
            &&& is_first_bad_row(m, row as int)
            &&& m[row as int].len() == m.len()
            &&& col < m[row as int].len()
            &&& !is_finite_key(m[row as int][col as int])
            &&& forall|k: int| 0 <= k < col ==> is_finite_key(#[trigger] m[row as int][k])
        },
        Err(OptimError::InvalidOrdering) => false,
    }
}

/// Checks that the matrix is non-empty, square and finite, returning its size.
pub fn validate_matrix(dist: &Vec<Vec<u64>>) -> (result: Result<usize, OptimError>)
    ensures
        validation_outcome(dist.deep_view(), result),
        result is Ok <==> is_valid_matrix(dist.deep_view()),
{
    let ghost m = dist.deep_view();
    let n = dist.len();
    if n == 0 {
        return Err(OptimError::EmptyMatrix);
    }
    let mut i: usize = 0;
    while i < n
        invariant
            m == dist.deep_view(),
            n == m.len(),
            0 <= i <= n,
            forall|k: int| 0 <= k < i ==> #[trigger] row_is_valid(m, k),
        decreases n - i,
    {
        let row = &dist[i];
        assert(row@ == m[i as int]);
        if row.len() != n {
            assert(is_first_bad_row(m, i as int));
            return Err(OptimError::NotSquare { rows: n, cols: row.len() });
        }
        let mut j: usize = 0;
        while j < n
            invariant
                m == dist.deep_view(),
                n == m.len(),
                0 <= i < n,
                row@ == m[i as int],
                row.len() == n,
                0 <= j <= n,
                forall|k: int| 0 <= k < j ==> is_finite_key(#[trigger] m[i as int][k]),
                forall|k: int| 0 <= k < i ==> #[trigger] row_is_valid(m, k),
            decreases n - j,
        {
            let value = row[j];
            if !(NEG_INFINITY_KEY < value && value < POS_INFINITY_KEY) {
                assert(is_first_bad_row(m, i as int));
                return Err(OptimError::NonFinite { row: i, col: j });
            }
            j = j + 1;
        }
        assert(row_is_valid(m, i as int));
        i = i + 1;
    }
    Ok(n)
}

/// The larger of two keys.
pub open spec fn max_key(a: u64, b: u64) -> u64 {
    if a < b {
        b
    } else {
        a
    }
}

/// The `i`-th edge of the ordering indexes an existing cost.
pub open spec fn edge_in_bounds(m: Seq<Seq<u64>>, order: Seq<usize>, i: int) -> bool {
    order[i] < m.len() && order[i + 1] < m[order[i] as int].len()
}

/// Every consecutive pair of the ordering indexes an existing cost.
pub open spec fn edges_in_bounds(m: Seq<Seq<u64>>, order: Seq<usize>) -> bool {
    forall|i: int| 0 <= i < order.len() - 1 ==> #[trigger] edge_in_bounds(m, order, i)
}

/// The worst (largest) edge cost along the ordering; a path without edges
/// costs zero.
pub open spec fn path_bottleneck(m: Seq<Seq<u64>>, order: Seq<usize>) -> u64
    decreases order.len(),
{
    if order.len() < 2 {
        ZERO_KEY
    } else {
        max_key(
            path_bottleneck(m, order.drop_last()),
            m[order[order.len() - 2] as int][order[order.len() - 1] as int],
        )
    }
}

/// The worst edge cost along the ordering.
pub fn bottleneck_cost(dist: &Vec<Vec<u64>>, order: &[usize]) -> (cost: u64)
    requires
        edges_in_bounds(dist.deep_view(), order@),
    ensures
        cost == path_bottleneck(dist.deep_view(), order@),
{
    let ghost m = dist.deep_view();
    let mut cost: u64 = ZERO_KEY;
    if order.len() < 2 {
        return cost;
    }
    let mut i: usize = 1;
    assert(order@.take(1).len() == 1);
    while i < order.len()
        invariant
            m == dist.deep_view(),
            edges_in_bounds(m, order@),
            1 <= i <= order@.len(),
            cost == path_bottleneck(m, order@.take(i as int)),
        decreases order.len() - i,
    {
        let from = order[i - 1];
        let to = order[i];
        assert(edge_in_bounds(m, order@, i - 1));
        assert(dist@[from as int]@ == m[from as int]);
        let edge = dist[from][to];
        assert(order@.take(i + 1).drop_last() =~= order@.take(i as int));
        if cost < edge {
            cost = edge;
        }
        i = i + 1;
    }
    assert(order@.take(order@.len() as int) =~= order@);
    cost
}

/// The ordering lists every index below `n` exactly once.
pub open spec fn is_permutation(order: Seq<usize>, n: nat) -> bool {
    &&& order.len() == n
    &&& forall|i: int| 0 <= i < order.len() ==> #[trigger] order[i] < n
    &&& order.no_duplicates()
}

/// Checks the matrix and that `initial` is a complete permutation of its
/// rows.
pub fn validate_initial_ordering(dist: &Vec<Vec<u64>>, initial: &Vec<usize>) -> (result: Result<
    (),
    OptimError,
>)
    ensures
        result is Ok <==> is_valid_matrix(dist.deep_view()) && is_permutation(
            initial@,
            dist@.len(),
        ),
        result is Err && result->Err_0 != OptimError::InvalidOrdering ==> validation_outcome(
            dist.deep_view(),
            Err(result->Err_0),
        ),
        result == Err::<(), OptimError>(OptimError::InvalidOrdering) ==> is_valid_matrix(
            dist.deep_view(),
        ) && !is_permutation(initial@, dist@.len()),
{
    let n = match validate_matrix(dist) {
        Ok(n) => n,
        Err(e) => {
            return Err(e);
        },
    };
    if initial.len() != n {
        return Err(OptimError::InvalidOrdering);
    }
    let mut seen: Vec<bool> = Vec::new();
    let mut k: usize = 0;
    while k < n
        invariant
            0 <= k <= n,
            seen@.len() == k,
            forall|v: int| 0 <= v < k ==> !#[trigger] seen@[v],
        decreases n - k,
    {
        seen.push(false);
        k = k + 1;
    }
    let mut i: usize = 0;
    while i < n
        invariant
            n == initial@.len(),
            n == dist@.len(),
            is_valid_matrix(dist.deep_view()),
            seen@.len() == n,
            0 <= i <= n,
            forall|a: int| 0 <= a < i ==> #[trigger] initial@[a] < n,
            forall|a: int, b: int| 0 <= a < b < i ==> initial@[a] != initial@[b],
            forall|v: int|
                0 <= v < n ==> (#[trigger] seen@[v] <==> exists|a: int|
                    0 <= a < i && initial@[a] == v),
        decreases n - i,
    {
        let value = initial[i];
        if value >= n {
            assert(!(initial@[i as int] < n));
            return Err(OptimError::InvalidOrdering);
        }
        if seen[value] {
            let ghost a = choose|a: int| 0 <= a < i && initial@[a] == value;
            assert(initial@[a] == initial@[i as int]);
            assert(!initial@.no_duplicates());
            return Err(OptimError::InvalidOrdering);
        }
        seen.set(value, true);
        assert forall|v: int| 0 <= v < n implies (#[trigger] seen@[v] <==> exists|a: int|
            0 <= a < i + 1 && initial@[a] == v) by {
            if v == value {
                assert(initial@[i as int] == v);
            }
        }
        i = i + 1;
    }
    assert(initial@.no_duplicates());
    Ok(())
}

/// Reverses the inclusive segment `lo..=hi` of the ordering: the move that
/// annealing proposes.
pub fn reverse_segment(order: &mut Vec<usize>, lo: usize, hi: usize)
    requires
        lo <= hi < old(order)@.len(),
    ensures
        final(order)@.len() == old(order)@.len(),
        forall|i: int|
            0 <= i < old(order)@.len() ==> #[trigger] final(order)@[i] == if lo <= i <= hi {
                old(order)@[lo + hi - i]
            } else {
                old(order)@[i]
            },
{
    let ghost given = order@;
    let mut a: usize = lo;
    let mut b: usize = hi;
    while a < b
        invariant
            lo <= a,
            b <= hi < given.len(),
            a <= b + 1,
            a + b == lo + hi,
            order@.len() == given.len(),
            forall|i: int|
                0 <= i < given.len() ==> #[trigger] order@[i] == if (lo <= i < a) || (b < i
                    <= hi) {
                    given[lo + hi - i]
                } else {
                    given[i]
                },
        decreases hi + 1 - a,
    {
        let left = order[a];
        let right = order[b];
        order.set(a, right);
        order.set(b, left);
        a = a + 1;
        b = b - 1;
    }
}

/// Reversing a segment of a permutation leaves a permutation.
pub proof fn lemma_reverse_keeps_permutation(
    before: Seq<usize>,
    after: Seq<usize>,
    lo: int,
    hi: int,
    n: nat,
)
    requires
        is_permutation(before, n),
        0 <= lo <= hi < before.len(),
        after.len() == before.len(),
        forall|i: int|
            0 <= i < before.len() ==> #[trigger] after[i] == if lo <= i <= hi {
                before[lo + hi - i]
            } else {
                before[i]
            },
    ensures
        is_permutation(after, n),
{
    let image = |i: int| if lo <= i <= hi {
        lo + hi - i
    } else {
        i
    };
    assert forall|i: int| 0 <= i < after.len() implies #[trigger] after[i] < n by {
        assert(after[i] == before[image(i)]);
    }
    assert forall|i: int, j: int| 0 <= i < after.len() && 0 <= j < after.len() && i != j implies after[i]
        != after[j] by {
        assert(after[i] == before[image(i)]);
        assert(after[j] == before[image(j)]);
        assert(image(i) != image(j));
    }
}

} // verus!

verus! {

/// `next` is the unvisited row nearest to `current`: no unvisited row is
/// cheaper to reach, and every unvisited row of smaller index is strictly
/// dearer (ties go to the lowest index).
pub open spec fn is_nearest_unvisited(
    m: Seq<Seq<u64>>,
    current: usize,
    visited: Seq<usize>,
    next: usize,
) -> bool {
    &&& next < m.len()
    &&& !visited.contains(next)
    &&& forall|k: usize|
        k < m.len() && !visited.contains(k) ==> m[current as int][next as int] <= #[trigger] m[current as int][k as int]
    &&& forall|k: usize|
        k < next && !visited.contains(k) ==> m[current as int][next as int] < #[trigger] m[current as int][k as int]
}

/// The nearest unvisited row.
pub open spec fn nearest_unvisited(m: Seq<Seq<u64>>, current: usize, visited: Seq<usize>) -> usize {
    choose|next: usize| is_nearest_unvisited(m, current, visited, next)
}

/// The first `len` rows visited by the nearest-neighbour walk from `start`.
pub open spec fn greedy_path(m: Seq<Seq<u64>>, start: usize, len: nat) -> Seq<usize>
    decreases len,
{
    if len <= 1 {
        seq![start]
    } else {
        let prefix = greedy_path(m, start, (len - 1) as nat);
        prefix.push(nearest_unvisited(m, prefix.last(), prefix))
    }
}

/// The complete nearest-neighbour walk from `start`.
pub open spec fn greedy_walk(m: Seq<Seq<u64>>, start: usize) -> Seq<usize> {
    greedy_path(m, start, m.len())
}

/// `start` gives the walk with the smallest worst edge, and every earlier
/// start gives a strictly worse one.
pub open spec fn is_best_start(m: Seq<Seq<u64>>, start: usize) -> bool {
    &&& start < m.len()
    &&& forall|s: usize|
        s < m.len() ==> path_bottleneck(m, greedy_walk(m, start)) <= #[trigger] path_bottleneck(
            m,
            greedy_walk(m, s),
        )
    &&& forall|s: usize|
        s < start ==> path_bottleneck(m, greedy_walk(m, start)) < #[trigger] path_bottleneck(
            m,
            greedy_walk(m, s),
        )
}

/// The ordering chosen by the all-starts nearest-neighbour search.
pub open spec fn greedy_order(m: Seq<Seq<u64>>) -> Seq<usize> {
    greedy_walk(m, choose|start: usize| is_best_start(m, start))
}

proof fn lemma_nearest_unique(m: Seq<Seq<u64>>, current: usize, visited: Seq<usize>, a: usize, b: usize)
    requires
        is_nearest_unvisited(m, current, visited, a),
        is_nearest_unvisited(m, current, visited, b),
    ensures
        a == b,
{
    if a < b {
        assert(m[current as int][b as int] < m[current as int][a as int]);
        assert(m[current as int][a as int] <= m[current as int][b as int]);
    } else if b < a {
        assert(m[current as int][a as int] < m[current as int][b as int]);
        assert(m[current as int][b as int] <= m[current as int][a as int]);
    }
}

proof fn lemma_best_start_unique(m: Seq<Seq<u64>>, a: usize, b: usize)
    requires
        is_best_start(m, a),
        is_best_start(m, b),
    ensures
        a == b,
{
    if a < b {
        assert(path_bottleneck(m, greedy_walk(m, b)) < path_bottleneck(m, greedy_walk(m, a)));
        assert(path_bottleneck(m, greedy_walk(m, a)) <= path_bottleneck(m, greedy_walk(m, b)));
    } else if b < a {
        assert(path_bottleneck(m, greedy_walk(m, a)) < path_bottleneck(m, greedy_walk(m, b)));
        assert(path_bottleneck(m, greedy_walk(m, b)) <= path_bottleneck(m, greedy_walk(m, a)));
    }
}

/// A duplicate-free list of fewer than `n` indices below `n` misses one.
proof fn lemma_some_index_unvisited(visited: Seq<usize>, n: nat)
    requires
        visited.no_duplicates(),
        visited.len() < n,
        n <= usize::MAX,
        forall|i: int| 0 <= i < visited.len() ==> #[trigger] visited[i] < n,
    ensures
        exists|k: usize| k < n && !visited.contains(k),
{
    if forall|k: usize| k < n ==> visited.contains(k) {
        let ints = visited.map_values(|k: usize| k as int);
        assert(ints.no_duplicates()) by {
            assert forall|i: int, j: int| 0 <= i < ints.len() && 0 <= j < ints.len() && i != j implies ints[i]
                != ints[j] by {
                assert(visited[i] != visited[j]);
            }
        }
        ints.unique_seq_to_set();
        let range = vstd::set_lib::set_int_range(0, n as int);
        assert(range.subset_of(ints.to_set())) by {
            assert forall|k: int| range.contains(k) implies ints.to_set().contains(k) by {
                assert(k == k as usize);
                assert(visited.contains(k as usize));
                let i = choose|i: int| 0 <= i < visited.len() && visited[i] == k as usize;
                assert(ints[i] == k);
            }
        }
        vstd::set_lib::lemma_int_range(0, n as int);
        vstd::set_lib::lemma_len_subset(range, ints.to_set());
    }
}

proof fn lemma_permutation_edges_in_bounds(m: Seq<Seq<u64>>, order: Seq<usize>)
    requires
        is_valid_matrix(m),
        forall|i: int| 0 <= i < order.len() ==> #[trigger] order[i] < m.len(),
    ensures
        edges_in_bounds(m, order),
{
    assert forall|i: int| 0 <= i < order.len() - 1 implies #[trigger] edge_in_bounds(m, order, i) by {
        assert(order[i] < m.len());
        assert(order[i + 1] < m.len());
        assert(row_is_valid(m, order[i] as int));
    }
}

/// The nearest-neighbour walk from `start` over a valid matrix.
fn greedy_from(dist: &Vec<Vec<u64>>, n: usize, start: usize) -> (order: Vec<usize>)
    requires
        is_valid_matrix(dist.deep_view()),
        n == dist@.len(),
        start < n,
    ensures
        order@ == greedy_walk(dist.deep_view(), start),
        is_permutation(order@, n as nat),
{
    let ghost m = dist.deep_view();
    let mut visited: Vec<bool> = Vec::new();
    let mut k: usize = 0;
    while k < n
        invariant
            0 <= k <= n,
            visited@.len() == k,
            forall|v: int| 0 <= v < k ==> !#[trigger] visited@[v],
        decreases n - k,
    {
        visited.push(false);
        k = k + 1;
    }
    let mut order: Vec<usize> = Vec::new();
    order.push(start);
    visited.set(start, true);
    let mut current = start;
    assert(order@ == greedy_path(m, start, 1));
    assert forall|v: int| 0 <= v < n implies #[trigger] visited@[v] == order@.contains(v as usize) by {
        if v == start {
            assert(order@[0] == start);
        }
    }
    while order.len() < n
        invariant
            m == dist.deep_view(),
            is_valid_matrix(m),
            n == m.len(),
            1 <= order@.len() <= n,
            order@ == greedy_path(m, start, order@.len()),
            order@.no_duplicates(),
            forall|i: int| 0 <= i < order@.len() ==> #[trigger] order@[i] < n,
            visited@.len() == n,
            forall|v: int| 0 <= v < n ==> #[trigger] visited@[v] == order@.contains(v as usize),
            current == order@.last(),
        decreases n - order@.len(),
    {
        let ghost prefix = order@;
        let row = &dist[current];
        assert(row@ == m[current as int]);
        assert(row_is_valid(m, current as int));
        let mut best_next: usize = 0;
        let mut best_dist: u64 = POS_INFINITY_KEY;
        let mut found = false;
        let mut j: usize = 0;
        while j < n
            invariant
                m == dist.deep_view(),
                is_valid_matrix(m),
                n == m.len(),
                row@ == m[current as int],
                row@.len() == n,
                row_is_valid(m, current as int),
                prefix == order@,
                visited@.len() == n,
                forall|v: int| 0 <= v < n ==> #[trigger] visited@[v] == prefix.contains(v as usize),
                0 <= j <= n,
                found ==> best_next < j && !prefix.contains(best_next) && best_dist
                    == m[current as int][best_next as int],
                found ==> forall|k: usize|
                    k < j && !prefix.contains(k) ==> best_dist <= #[trigger] m[current as int][k as int],
                found ==> forall|k: usize|
                    k < best_next && !prefix.contains(k) ==> best_dist
                        < #[trigger] m[current as int][k as int],
                !found ==> best_dist == POS_INFINITY_KEY,
                !found ==> forall|k: usize| k < j ==> #[trigger] prefix.contains(k),
            decreases n - j,
        {
            let cost = row[j];
            assert(is_finite_key(m[current as int][j as int]));
            if !visited[j] && cost < best_dist {
                best_dist = cost;
                best_next = j;
                found = true;
            }
            proof {
                if !found {
                    assert(visited@[j as int]);
                    assert(prefix.contains(j));
                }
            }
            j = j + 1;
        }
        proof {
            lemma_some_index_unvisited(prefix, n as nat);
            if !found {
                let k = choose|k: usize| k < n && !prefix.contains(k);
                assert(prefix.contains(k));
            }
            assert(is_nearest_unvisited(m, current, prefix, best_next));
            lemma_nearest_unique(
                m,
                current,
                prefix,
                best_next,
                nearest_unvisited(m, current, prefix),
            );
        }
        visited.set(best_next, true);
        order.push(best_next);
        current = best_next;
        proof {
            assert(order@ == greedy_path(m, start, order@.len()));
            assert forall|v: int| 0 <= v < n implies #[trigger] visited@[v] == order@.contains(
                v as usize,
            ) by {
                if v == best_next {
                    assert(order@[prefix.len() as int] == best_next);
                } else {
                    if order@.contains(v as usize) {
                        let i = choose|i: int| 0 <= i < order@.len() && order@[i] == v as usize;
                        assert(i < prefix.len());
                        assert(prefix[i] == v as usize);
                    }
                    if prefix.contains(v as usize) {
                        let i = choose|i: int| 0 <= i < prefix.len() && prefix[i] == v as usize;
                        assert(order@[i] == v as usize);
                    }
                }
            }
            assert forall|a: int, b: int| 0 <= a < b < order@.len() implies order@[a] != order@[b] by {
                if b == prefix.len() {
                    assert(prefix[a] == order@[a]);
                }
            }
        }
    }
    order
}

/// The all-starts nearest-neighbour search: a baseline ordering and the seed
/// of annealing.
pub struct GreedyNn;

impl GreedyNn {
    /// Walks to the nearest unvisited row from every start and keeps the walk
    /// whose worst edge is smallest (the earliest start on ties).
    pub fn optimize(&self, dist: &Vec<Vec<u64>>) -> (result: Result<Vec<usize>, OptimError>)
        ensures
            result is Ok <==> is_valid_matrix(dist.deep_view()),
            result is Err ==> validation_outcome(dist.deep_view(), Err(result->Err_0)),
            result is Ok ==> result->Ok_0@ == greedy_order(dist.deep_view()),
            // Every row appears exactly once.
            result is Ok ==> is_permutation(result->Ok_0@, dist@.len()),
            // No start gives a walk with a smaller worst edge.
            result is Ok ==> forall|s: usize|
                s < dist@.len() ==> path_bottleneck(dist.deep_view(), result->Ok_0@)
                    <= #[trigger] path_bottleneck(
                    dist.deep_view(),
                    greedy_walk(dist.deep_view(), s),
                ),
    {
        let ghost m = dist.deep_view();
        let n = match validate_matrix(dist) {
            Ok(n) => n,
            Err(e) => {
                return Err(e);
            },
        };
        let mut best_order = greedy_from(dist, n, 0);
        proof {
            lemma_permutation_edges_in_bounds(m, best_order@);
        }
        let mut best_cost = bottleneck_cost(dist, best_order.as_slice());
        let ghost mut best_start: usize = 0;
        let mut start: usize = 1;
        while start < n
            invariant
                m == dist.deep_view(),
                is_valid_matrix(m),
                n == m.len(),
                1 <= start <= n,
                best_start < start,
                best_order@ == greedy_walk(m, best_start),
                is_permutation(best_order@, n as nat),
                best_cost == path_bottleneck(m, best_order@),
                forall|s: usize|
                    s < start ==> best_cost <= #[trigger] path_bottleneck(m, greedy_walk(m, s)),
                forall|s: usize|
                    s < best_start ==> best_cost < #[trigger] path_bottleneck(m, greedy_walk(m, s)),
            decreases n - start,
        {
            let order = greedy_from(dist, n, start);
            proof {
                lemma_permutation_edges_in_bounds(m, order@);
            }
            let cost = bottleneck_cost(dist, order.as_slice());
            if cost < best_cost {
                best_cost = cost;
                best_order = order;
                proof {
                    best_start = start;
                }
            }
            start = start + 1;
        }
        proof {
            assert(is_best_start(m, best_start));
            lemma_best_start_unique(m, best_start, choose|s: usize| is_best_start(m, s));
        }
        Ok(best_order)
    }
}

/// The positive costs of row `r` off the diagonal, among its first `j`
/// columns, in column order.
pub open spec fn row_positive_edges(m: Seq<Seq<u64>>, r: int, j: int) -> Seq<u64>
    decreases j,
{
    if j <= 0 {
        seq![]
    } else {
        let before = row_positive_edges(m, r, j - 1);
        if r != j - 1 && m[r][j - 1] > ZERO_KEY {
            before.push(m[r][j - 1])
        } else {
            before
        }
    }
}

/// The positive off-diagonal costs of the first `i` rows, in row-major order.
pub open spec fn positive_edges_upto(m: Seq<Seq<u64>>, i: int) -> Seq<u64>
    decreases i,
{
    if i <= 0 {
        seq![]
    } else {
        positive_edges_upto(m, i - 1) + row_positive_edges(m, i - 1, m[i - 1].len() as int)
    }
}

/// The positive off-diagonal costs of the matrix, in row-major order.
pub open spec fn positive_edges(m: Seq<Seq<u64>>) -> Seq<u64> {
    positive_edges_upto(m, m.len() as int)
}

/// The keys rise (weakly) along the sequence.
pub open spec fn keys_ascending(s: Seq<u64>) -> bool {
    forall|i: int, j: int| 0 <= i <= j < s.len() ==> s[i] <= s[j]
}

/// The middle keys of the positive costs: one sorted arrangement of them
/// has `low` and `high` at its middle (the same key when their number is
/// odd).
pub open spec fn is_median_pair(m: Seq<Seq<u64>>, low: u64, high: u64) -> bool {
    exists|s: Seq<u64>|
        #![trigger keys_ascending(s)]
        keys_ascending(s) && s.to_multiset() == positive_edges(m).to_multiset() && s.len() > 0 && if s.len()
            % 2 == 0 {
            low == s[s.len() / 2 - 1] && high == s[(s.len() / 2) as int]
        } else {
            low == s[(s.len() / 2) as int] && high == s[(s.len() / 2) as int]
        }
}

/// `slice::sort_unstable`: the keys in ascending order, each kept as often
/// as it occurred, as std documents it.
#[verifier::external_body]
fn sort_keys(keys: &mut Vec<u64>)
    ensures
        final(keys)@.to_multiset() == old(keys)@.to_multiset(),
        keys_ascending(final(keys)@),
{
    keys.sort_unstable();
}

/// The middle positive off-diagonal costs of a valid matrix, which scale the
/// starting temperature of annealing: `None` when no cost is positive.
pub fn median_edge_keys(dist: &Vec<Vec<u64>>) -> (result: Result<Option<(u64, u64)>, OptimError>)
    ensures
        result is Ok <==> is_valid_matrix(dist.deep_view()),
        result is Err ==> validation_outcome(dist.deep_view(), Err(result->Err_0)),
        result matches Ok(None) ==> positive_edges(dist.deep_view()).len() == 0,
        result matches Ok(Some((low, high))) ==> is_median_pair(dist.deep_view(), low, high),
{
    let ghost m = dist.deep_view();
    let n = match validate_matrix(dist) {
        Ok(n) => n,
        Err(e) => {
            return Err(e);
        },
    };
    let mut edges: Vec<u64> = Vec::new();
    let mut i: usize = 0;
    while i < n
        invariant
            m == dist.deep_view(),
            is_valid_matrix(m),
            n == m.len(),
            0 <= i <= n,
            edges@ == positive_edges_upto(m, i as int),
        decreases n - i,
    {
        let row = &dist[i];
        assert(row@ == m[i as int]);
        assert(row_is_valid(m, i as int));
        let ghost before = edges@;
        let mut j: usize = 0;
        while j < row.len()
            invariant
                m == dist.deep_view(),
                n == m.len(),
                0 <= i < n,
                row@ == m[i as int],
                0 <= j <= row@.len(),
                edges@ == before + row_positive_edges(m, i as int, j as int),
            decreases row.len() - j,
        {
            let value = row[j];
            if i != j && value > ZERO_KEY {
                edges.push(value);
            }
            assert(edges@ =~= before + row_positive_edges(m, i as int, j + 1));
            j = j + 1;
        }
        assert(positive_edges_upto(m, i + 1) =~= before + row_positive_edges(
            m,
            i as int,
            m[i as int].len() as int,
        ));
        i = i + 1;
    }
    if edges.len() == 0 {
        return Ok(None);
    }
    let ghost unsorted = edges@;
    sort_keys(&mut edges);
    proof {
        assert(edges@.to_multiset().len() == edges@.len()) by {
            edges@.to_multiset_ensures();
            unsorted.to_multiset_ensures();
        }
        assert(edges@.len() == unsorted.len()) by {
            edges@.to_multiset_ensures();
            unsorted.to_multiset_ensures();
        }
    }
    let middle = edges.len() / 2;
    let pair = if edges.len() % 2 == 0 {
        (edges[middle - 1], edges[middle])
    } else {
        (edges[middle], edges[middle])
    };
    assert(keys_ascending(edges@));
    Ok(Some(pair))
}

} // verus!
