//! What it means for a tour to be built by always walking to the nearest
//! point not yet visited.

use vstd::prelude::*;
use crate::distance::DistanceTable;
use crate::tour::is_tour;

verus! {

/// `node` stands in `path` before position `i`.
pub open spec fn visited_before(path: Seq<usize>, i: int, node: int) -> bool {
    exists|t: int| 0 <= t < i && #[trigger] path[t] == node
}

/// The point at position `i` of `path` was not visited before, no unvisited
/// point is nearer to the point at position `i - 1`, and among the unvisited
/// points at that least distance it has the lowest index.
pub open spec fn is_nearest_choice(table: DistanceTable, path: Seq<usize>, i: int) -> bool {
    let from = path[i - 1] as int;
    let to = path[i] as int;
    &&& !visited_before(path, i, to)
    &&& forall|j: int|
        0 <= j < table.size() && !visited_before(path, i, j) ==> {
            &&& table.at(from, to) <= #[trigger] table.at(from, j)
            &&& table.at(from, j) == table.at(from, to) ==> to <= j
        }
}

/// Every step of `path` goes to the nearest unvisited point.
pub open spec fn is_greedy_tour(table: DistanceTable, path: Seq<usize>) -> bool {
    forall|i: int| 1 <= i < table.size() ==> #[trigger] is_nearest_choice(table, path, i)
}

/// The number of `false` entries of `visited`.
pub open spec fn open_count(visited: Seq<bool>) -> nat
    decreases visited.len(),
{
    if visited.len() == 0 {
        0
    } else {
        open_count(visited.drop_last()) + if visited.last() {
            0nat
        } else {
            1nat
        }
    }
}

/// Marking an unvisited point leaves one fewer.
pub proof fn lemma_open_count_mark(visited: Seq<bool>, j: int)
    requires
        0 <= j < visited.len(),
        !visited[j],
    ensures
        open_count(visited.update(j, true)) + 1 == open_count(visited),
    decreases visited.len(),
{
    let marked = visited.update(j, true);
    if j == visited.len() - 1 {
        assert(marked.drop_last() =~= visited.drop_last());
    } else {
        lemma_open_count_mark(visited.drop_last(), j);
        assert(marked.drop_last() =~= visited.drop_last().update(j, true));
    }
}

/// Where a point is left, there is one.
pub proof fn lemma_open_point(visited: Seq<bool>) -> (j: int)
    requires
        open_count(visited) > 0,
    ensures
        0 <= j < visited.len(),
        !visited[j],
    decreases visited.len(),
{
    if !visited.last() {
        visited.len() - 1
    } else {
        lemma_open_point(visited.drop_last())
    }
}

/// Whether a step is a nearest choice depends only on the path up to it.
pub proof fn lemma_choice_stable(table: DistanceTable, p: Seq<usize>, q: Seq<usize>, i: int)
    requires
        1 <= i,
        forall|x: int| 0 <= x <= i ==> p[x] == q[x],
        is_nearest_choice(table, p, i),
    ensures
        is_nearest_choice(table, q, i),
{
    assert forall|j: int| visited_before(q, i, j) implies visited_before(p, i, j) by {
        let t = choose|t: int| 0 <= t < i && #[trigger] q[t] == j;
        assert(p[t] == j);
    }
}

/// Two greedy tours over one table are the same tour.
pub proof fn lemma_greedy_unique(table: DistanceTable, p: Seq<usize>, q: Seq<usize>)
    requires
        is_tour(p, table.size()),
        is_tour(q, table.size()),
        is_greedy_tour(table, p),
        is_greedy_tour(table, q),
    ensures
        p == q,
{
    let n = table.size() as int;
    lemma_greedy_prefix(table, p, q, n - 1);
    assert(p =~= q);
}

/// Two greedy tours over one table agree up to any position.
proof fn lemma_greedy_prefix(table: DistanceTable, p: Seq<usize>, q: Seq<usize>, i: int)
    requires
        is_tour(p, table.size()),
        is_tour(q, table.size()),
        is_greedy_tour(table, p),
        is_greedy_tour(table, q),
        0 <= i < table.size(),
    ensures
        forall|x: int| 0 <= x <= i ==> p[x] == q[x],
    decreases i,
{
    if i > 0 {
        lemma_greedy_prefix(table, p, q, i - 1);
        assert(is_nearest_choice(table, p, i));
        assert(is_nearest_choice(table, q, i));
        let a = p[i] as int;
        let b = q[i] as int;
        assert(!visited_before(q, i, a)) by {
            if visited_before(q, i, a) {
                let t = choose|t: int| 0 <= t < i && #[trigger] q[t] == a;
                assert(p[t] == a);
                assert(visited_before(p, i, a));
            }
        }
        assert(!visited_before(p, i, b)) by {
            if visited_before(p, i, b) {
                let t = choose|t: int| 0 <= t < i && #[trigger] p[t] == b;
                assert(q[t] == b);
                assert(visited_before(q, i, b));
            }
        }
        assert(p[i] < table.size());
        assert(q[i] < table.size());
        let from = p[i - 1] as int;
        assert(q[i - 1] as int == from);
        assert(table.at(from, a) <= table.at(from, b));
        assert(table.at(from, b) <= table.at(from, a));
    }
}

} // verus!
