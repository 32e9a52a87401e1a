//! Closed tours over the points of an instance: what a tour is, how long it
//! is, and how the two moves that the local searches apply change it.

use vstd::prelude::*;
use vstd::set_lib::{lemma_int_range, lemma_len_subset, set_int_range};
use crate::distance::{DistanceTable, DISTANCE_LIMIT};

verus! {

/// `path` is a closed tour of `n` points: it starts and ends at point 0 and
/// its first `n` entries hold every point exactly once.
pub open spec fn is_tour(path: Seq<usize>, n: nat) -> bool {
    &&& n >= 1
    &&& path.len() == n + 1
    &&& path[0] == 0
    &&& path[n as int] == 0
    &&& forall|i: int| 0 <= i < n ==> #[trigger] path[i] < n
    &&& forall|i: int, j: int| 0 <= i < j < n ==> path[i] != path[j]
}

/// A tour visits every point: each of the `n` points stands at one of the
/// first `n` positions, which the proof names.
pub proof fn lemma_tour_visits(path: Seq<usize>, n: nat, node: int) -> (at: int)
    requires
        is_tour(path, n),
        0 <= node < n,
    ensures
        0 <= at < n,
        path[at] == node,
{
    let head = Seq::new(n, |x: int| path[x] as int);
    assert forall|i: int, j: int|
        0 <= i < head.len() && 0 <= j < head.len() && i != j implies head[i] != head[j] by {
        if i < j {
            assert(path[i] != path[j]);
        } else {
            assert(path[j] != path[i]);
        }
    }
    head.unique_seq_to_set();
    let visited = head.to_set();
    let all = set_int_range(0, n as int);
    lemma_int_range(0, n as int);
    if !visited.contains(node) {
        let rest = all.remove(node);
        assert forall|v: int| visited.contains(v) implies rest.contains(v) by {
            let w = choose|w: int| 0 <= w < head.len() && head[w] == v;
            assert(path[w] < n);
        }
        lemma_len_subset(visited, rest);
        assert(false);
    }
    let at = choose|at: int| 0 <= at < head.len() && head[at] == node;
    at
}

/// The length of the edge that leaves position `x` of `path`.
pub open spec fn edge(table: DistanceTable, path: Seq<usize>, x: int) -> int {
    table.at(path[x] as int, path[x + 1] as int)
}

/// The summed length of the edges of `path` between positions `lo` and `hi`.
pub open spec fn span_length(table: DistanceTable, path: Seq<usize>, lo: int, hi: int) -> int
    decreases hi - lo,
{
    if hi <= lo {
        0
    } else {
        span_length(table, path, lo, hi - 1) + edge(table, path, hi - 1)
    }
}

/// The summed length of all edges of `path`.
pub open spec fn tour_length(table: DistanceTable, path: Seq<usize>) -> int {
    span_length(table, path, 0, path.len() - 1)
}

/// `path` with the entries at positions `lo..hi` in reverse order.
pub open spec fn reversed_range(path: Seq<usize>, lo: int, hi: int) -> Seq<usize> {
    Seq::new(
        path.len(),
        |x: int|
            if lo <= x < hi {
                path[lo + hi - 1 - x]
            } else {
                path[x]
            },
    )
}

/// `path` with the block at positions `mid..hi` moved in front of the block
/// at positions `lo..mid`.
pub open spec fn exchanged_blocks(path: Seq<usize>, lo: int, mid: int, hi: int) -> Seq<usize> {
    Seq::new(
        path.len(),
        |x: int|
            if lo <= x < lo + (hi - mid) {
                path[x - lo + mid]
            } else if lo + (hi - mid) <= x < hi {
                path[x - (hi - mid)]
            } else {
                path[x]
            },
    )
}

/// What reversing positions `lo..hi` adds to the length of `path`: the two
/// edges that the reversal makes, less the two that it breaks.
pub open spec fn reversal_delta(table: DistanceTable, path: Seq<usize>, lo: int, hi: int) -> int {
    table.at(path[lo - 1] as int, path[hi - 1] as int) + table.at(path[lo] as int, path[hi] as int)
        - table.at(path[lo - 1] as int, path[lo] as int) - table.at(
        path[hi - 1] as int,
        path[hi] as int,
    )
}

/// What exchanging the blocks `lo..mid` and `mid..hi` adds to the length of
/// `path`: the three edges that the exchange makes, less the three that it
/// breaks.
pub open spec fn exchange_delta(
    table: DistanceTable,
    path: Seq<usize>,
    lo: int,
    mid: int,
    hi: int,
) -> int {
    table.at(path[lo - 1] as int, path[mid] as int) + table.at(
        path[hi - 1] as int,
        path[lo] as int,
    ) + table.at(path[mid - 1] as int, path[hi] as int) - table.at(
        path[lo - 1] as int,
        path[lo] as int,
    ) - table.at(path[mid - 1] as int, path[mid] as int) - table.at(
        path[hi - 1] as int,
        path[hi] as int,
    )
}

/// A span is the sum of its two parts.
pub proof fn lemma_span_split(table: DistanceTable, path: Seq<usize>, lo: int, mid: int, hi: int)
    requires
        lo <= mid <= hi,
    ensures
        span_length(table, path, lo, hi) == span_length(table, path, lo, mid) + span_length(
            table,
            path,
            mid,
            hi,
        ),
    decreases hi - mid,
{
    if mid < hi {
        lemma_span_split(table, path, lo, mid, hi - 1);
    }
}

/// Two paths that agree on positions `lo..=hi` have the same span there.
pub proof fn lemma_span_agree(table: DistanceTable, p: Seq<usize>, q: Seq<usize>, lo: int, hi: int)
    requires
        forall|x: int| lo <= x <= hi ==> p[x] == q[x],
    ensures
        span_length(table, p, lo, hi) == span_length(table, q, lo, hi),
    decreases hi - lo,
{
    if lo < hi {
        lemma_span_agree(table, p, q, lo, hi - 1);
    }
}

/// A span of `q` that holds the entries of a span of `p` in the same order,
/// `shift` positions further on, has the same length.
pub proof fn lemma_span_shifted(
    table: DistanceTable,
    p: Seq<usize>,
    q: Seq<usize>,
    lo: int,
    hi: int,
    shift: int,
)
    requires
        forall|x: int| lo <= x <= hi ==> q[x + shift] == p[x],
    ensures
        span_length(table, q, lo + shift, hi + shift) == span_length(table, p, lo, hi),
    decreases hi - lo,
{
    if lo < hi {
        lemma_span_shifted(table, p, q, lo, hi - 1, shift);
        assert(q[hi - 1 + shift] == p[hi - 1]);
        assert(q[hi + shift] == p[hi]);
    }
}

/// The first `m` edges of a span of `q` that holds the entries of `p` at
/// `lo..=hi` in reverse order are as long as the last `m` edges of that span
/// of `p`.
proof fn lemma_span_mirrored(
    table: DistanceTable,
    p: Seq<usize>,
    q: Seq<usize>,
    lo: int,
    hi: int,
    m: int,
)
    requires
        table.wf(),
        0 <= m <= hi - lo,
        forall|x: int| lo <= x <= hi ==> 0 <= #[trigger] p[x] < table.size(),
        forall|x: int| lo <= x <= hi ==> q[x] == p[lo + hi - x],
    ensures
        span_length(table, q, lo, lo + m) == span_length(table, p, hi - m, hi),
    decreases m,
{
    if m > 0 {
        lemma_span_mirrored(table, p, q, lo, hi, m - 1);
        lemma_span_split(table, p, hi - m, hi - m + 1, hi);
        assert(span_length(table, p, hi - m, hi - m) == 0);
        assert(span_length(table, p, hi - m, hi - m + 1) == edge(table, p, hi - m));
        assert(q[lo + m - 1] == p[hi - m + 1]);
        assert(q[lo + m] == p[hi - m]);
        assert(p[hi - m] < table.size());
        assert(p[hi - m + 1] < table.size());
        table.lemma_symmetric(p[hi - m] as int, p[hi - m + 1] as int);
    }
}

/// No span is negative, and none is longer than its edges can be.
pub proof fn lemma_span_bounds(table: DistanceTable, path: Seq<usize>, lo: int, hi: int)
    requires
        table.wf(),
        lo <= hi,
        forall|x: int| lo <= x <= hi ==> 0 <= #[trigger] path[x] < table.size(),
    ensures
        0 <= span_length(table, path, lo, hi) <= (hi - lo) * DISTANCE_LIMIT,
    decreases hi - lo,
{
    if lo < hi {
        lemma_span_bounds(table, path, lo, hi - 1);
        assert(path[hi - 1] < table.size());
        assert(path[hi] < table.size());
        table.lemma_symmetric(path[hi - 1] as int, path[hi] as int);
        assert((hi - lo) * DISTANCE_LIMIT == (hi - 1 - lo)
            * DISTANCE_LIMIT + DISTANCE_LIMIT)
            by (nonlinear_arith);
    }
}

/// Reversing positions `lo..hi` of a tour gives a tour, and changes its
/// length by exactly `reversal_delta`.
pub proof fn lemma_reversal(table: DistanceTable, path: Seq<usize>, lo: int, hi: int)
    requires
        table.wf(),
        is_tour(path, table.size()),
        1 <= lo < hi <= table.size(),
    ensures
        is_tour(reversed_range(path, lo, hi), table.size()),
        tour_length(table, reversed_range(path, lo, hi)) == tour_length(table, path)
            + reversal_delta(table, path, lo, hi),
{
    let n = table.size() as int;
    let q = reversed_range(path, lo, hi);
    assert(forall|x: int| 0 <= x <= n ==> 0 <= #[trigger] path[x] < n);
    assert forall|i: int, j: int| 0 <= i < j < n implies q[i] != q[j] by {
        let si = if lo <= i < hi { lo + hi - 1 - i } else { i };
        let sj = if lo <= j < hi { lo + hi - 1 - j } else { j };
        assert(q[i] == path[si] && q[j] == path[sj]);
        assert(si != sj);
        if si < sj {
            assert(path[si] != path[sj]);
        } else {
            assert(path[sj] != path[si]);
        }
    }
    assert forall|i: int| 0 <= i < n implies #[trigger] q[i] < n by {
        let si = if lo <= i < hi { lo + hi - 1 - i } else { i };
        assert(q[i] == path[si]);
    }
    lemma_span_split(table, path, 0, lo - 1, n);
    lemma_span_split(table, path, lo - 1, lo, n);
    lemma_span_split(table, path, lo, hi - 1, n);
    lemma_span_split(table, path, hi - 1, hi, n);
    lemma_span_split(table, q, 0, lo - 1, n);
    lemma_span_split(table, q, lo - 1, lo, n);
    lemma_span_split(table, q, lo, hi - 1, n);
    lemma_span_split(table, q, hi - 1, hi, n);
    lemma_span_agree(table, path, q, 0, lo - 1);
    lemma_span_agree(table, path, q, hi, n);
    lemma_span_mirrored(table, path, q, lo, hi - 1, hi - 1 - lo);
    assert(span_length(table, path, lo - 1, lo - 1) == 0);
    assert(span_length(table, q, lo - 1, lo - 1) == 0);
    assert(span_length(table, path, hi - 1, hi - 1) == 0);
    assert(span_length(table, q, hi - 1, hi - 1) == 0);
    assert(span_length(table, path, lo - 1, lo) == edge(table, path, lo - 1));
    assert(span_length(table, q, lo - 1, lo) == edge(table, q, lo - 1));
    assert(span_length(table, path, hi - 1, hi) == edge(table, path, hi - 1));
    assert(span_length(table, q, hi - 1, hi) == edge(table, q, hi - 1));
    assert(q[lo - 1] == path[lo - 1]);
    assert(q[lo] == path[hi - 1]);
    assert(q[hi - 1] == path[lo]);
    assert(q[hi] == path[hi]);
}

/// Exchanging the blocks `lo..mid` and `mid..hi` of a tour gives a tour, and
/// changes its length by exactly `exchange_delta`.
pub proof fn lemma_exchange(table: DistanceTable, path: Seq<usize>, lo: int, mid: int, hi: int)
    requires
        table.wf(),
        is_tour(path, table.size()),
        1 <= lo < mid < hi <= table.size(),
    ensures
        is_tour(exchanged_blocks(path, lo, mid, hi), table.size()),
        tour_length(table, exchanged_blocks(path, lo, mid, hi)) == tour_length(table, path)
            + exchange_delta(table, path, lo, mid, hi),
{
    let n = table.size() as int;
    let q = exchanged_blocks(path, lo, mid, hi);
    let cut = lo + (hi - mid);
    assert forall|i: int, j: int| 0 <= i < j < n implies q[i] != q[j] by {
        let si = if lo <= i < cut { i - lo + mid } else if cut <= i < hi { i - (hi - mid) } else { i };
        let sj = if lo <= j < cut { j - lo + mid } else if cut <= j < hi { j - (hi - mid) } else { j };
        assert(q[i] == path[si] && q[j] == path[sj]);
        assert(si != sj);
        if si < sj {
            assert(path[si] != path[sj]);
        } else {
            assert(path[sj] != path[si]);
        }
    }
    assert forall|i: int| 0 <= i < n implies #[trigger] q[i] < n by {
        let si = if lo <= i < cut { i - lo + mid } else if cut <= i < hi { i - (hi - mid) } else { i };
        assert(q[i] == path[si]);
    }
    lemma_span_split(table, path, 0, lo - 1, n);
    lemma_span_split(table, path, lo - 1, lo, n);
    lemma_span_split(table, path, lo, mid - 1, n);
    lemma_span_split(table, path, mid - 1, mid, n);
    lemma_span_split(table, path, mid, hi - 1, n);
    lemma_span_split(table, path, hi - 1, hi, n);
    lemma_span_split(table, q, 0, lo - 1, n);
    lemma_span_split(table, q, lo - 1, lo, n);
    lemma_span_split(table, q, lo, cut - 1, n);
    lemma_span_split(table, q, cut - 1, cut, n);
    lemma_span_split(table, q, cut, hi - 1, n);
    lemma_span_split(table, q, hi - 1, hi, n);
    lemma_span_agree(table, path, q, 0, lo - 1);
    lemma_span_agree(table, path, q, hi, n);
    lemma_span_shifted(table, path, q, mid, hi - 1, lo - mid);
    lemma_span_shifted(table, path, q, lo, mid - 1, hi - mid);
    assert(span_length(table, path, lo - 1, lo - 1) == 0);
    assert(span_length(table, path, mid - 1, mid - 1) == 0);
    assert(span_length(table, path, hi - 1, hi - 1) == 0);
    assert(span_length(table, q, lo - 1, lo - 1) == 0);
    assert(span_length(table, q, cut - 1, cut - 1) == 0);
    assert(span_length(table, q, hi - 1, hi - 1) == 0);
    assert(span_length(table, path, lo - 1, lo) == edge(table, path, lo - 1));
    assert(span_length(table, path, mid - 1, mid) == edge(table, path, mid - 1));
    assert(span_length(table, path, hi - 1, hi) == edge(table, path, hi - 1));
    assert(span_length(table, q, lo - 1, lo) == edge(table, q, lo - 1));
    assert(span_length(table, q, cut - 1, cut) == edge(table, q, cut - 1));
    assert(span_length(table, q, hi - 1, hi) == edge(table, q, hi - 1));
    assert(q[lo - 1] == path[lo - 1]);
    assert(q[lo] == path[mid]);
    assert(q[cut - 1] == path[hi - 1]);
    assert(q[cut] == path[lo]);
    assert(q[hi - 1] == path[mid - 1]);
    assert(q[hi] == path[hi]);
}

/// Reverses the entries of `v` at positions `lo..hi` in place.
pub fn reverse_range(v: &mut Vec<usize>, lo: usize, hi: usize)
    requires
        lo <= hi <= old(v)@.len(),
    ensures
        final(v)@ == reversed_range(old(v)@, lo as int, hi as int),
{
    let ghost before = v@;
    let mut a: usize = lo;
    let mut b: usize = hi;
    while b - a > 1
        invariant
            lo <= a <= b <= hi <= v@.len(),
            a - lo == hi - b,
            v@.len() == before.len(),
            forall|x: int| 0 <= x < v@.len() && !(lo <= x < a) && !(b <= x < hi) ==> v@[x] == before[x],
            forall|x: int| lo <= x < a || b <= x < hi ==> v@[x] == before[lo + hi - 1 - x],
        decreases b - a,
    {
        let left: usize = v[a];
        let right: usize = v[b - 1];
        v.set(a, right);
        v.set(b - 1, left);
        a += 1;
        b -= 1;
    }
    assert(v@ =~= reversed_range(before, lo as int, hi as int));
}

/// Moves the block of `v` at positions `mid..hi` in front of the block at
/// positions `lo..mid`, in place.
pub fn exchange_blocks(v: &mut Vec<usize>, lo: usize, mid: usize, hi: usize)
    requires
        lo <= mid <= hi <= old(v)@.len(),
    ensures
        final(v)@ == exchanged_blocks(old(v)@, lo as int, mid as int, hi as int),
{
    let ghost before = v@;
    let mut block: Vec<usize> = Vec::new();
    let mut x: usize = lo;
    while x < mid
        invariant
            lo <= x <= mid <= hi <= v@.len(),
            v@ == before,
            block@.len() == x - lo,
            forall|t: int| 0 <= t < x - lo ==> block@[t] == before[lo + t],
        decreases mid - x,
    {
        block.push(v[x]);
        x += 1;
    }
    let cut: usize = lo + (hi - mid);
    let mut y: usize = lo;
    while y < cut
        invariant
            lo <= y <= cut <= hi <= v@.len(),
            cut == lo + (hi - mid),
            v@.len() == before.len(),
            forall|t: int| 0 <= t < v@.len() && !(lo <= t < y) ==> v@[t] == before[t],
            forall|t: int| lo <= t < y ==> v@[t] == before[t - lo + mid],
        decreases cut - y,
    {
        let moved: usize = v[y - lo + mid];
        v.set(y, moved);
        y += 1;
    }
    let mut z: usize = cut;
    while z < hi
        invariant
            lo <= cut <= z <= hi <= v@.len(),
            cut == lo + (hi - mid),
            block@.len() == mid - lo,
            v@.len() == before.len(),
            forall|t: int| 0 <= t < mid - lo ==> block@[t] == before[lo + t],
            forall|t: int| 0 <= t < v@.len() && !(lo <= t < z) ==> v@[t] == before[t],
            forall|t: int| lo <= t < cut ==> v@[t] == before[t - lo + mid],
            forall|t: int| cut <= t < z ==> v@[t] == before[t - (hi - mid)],
        decreases hi - z,
    {
        let moved: usize = block[z - cut];
        v.set(z, moved);
        z += 1;
    }
    assert(v@ =~= exchanged_blocks(before, lo as int, mid as int, hi as int));
}

} // verus!
