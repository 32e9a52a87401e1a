//! Pairwise distances between the points of an instance, in fixed-point
//! units: one coordinate unit is `DISTANCE_SCALE` distance units.

use vstd::prelude::*;

verus! {

/// Largest number of points that an instance may hold.
pub const MAX_NODES: usize = 250;

/// Distance units per coordinate unit.
pub const DISTANCE_SCALE: u64 = 1000;

/// Every distance between two points with `i32` coordinates is below this.
pub const DISTANCE_LIMIT: u64 = 0x800_0000_0000;

/// The squared Euclidean distance between `p` and `q`, in squared distance
/// units.
pub open spec fn scaled_square(p: [i32; 2], q: [i32; 2]) -> int {
    let dx = p[0] as int - q[0] as int;
    let dy = p[1] as int - q[1] as int;
    1_000_000 * (dx * dx + dy * dy)
}

/// `r` is the square root of `v`, rounded down.
pub open spec fn is_floor_sqrt(v: int, r: int) -> bool {
    &&& 0 <= r
    &&& r * r <= v
    &&& v < (r + 1) * (r + 1)
}

/// The square root of `v`, rounded down.
pub fn floor_sqrt(v: u128) -> (r: u64)
    ensures
        is_floor_sqrt(v as int, r as int),
{
    let mut lo: u128 = 0;
    let mut hi: u128 = 0x1_0000_0000_0000_0000;
    assert(hi * hi > v) by (nonlinear_arith)
        requires
            hi == 0x1_0000_0000_0000_0000,
            v <= u128::MAX,
    ;
    while hi - lo > 1
        invariant
            lo < hi <= 0x1_0000_0000_0000_0000,
            lo * lo <= v < hi * hi,
        decreases hi - lo,
    {
        let mid: u128 = lo + (hi - lo) / 2;
        assert(mid * mid <= 0xffff_ffff_ffff_ffff * 0xffff_ffff_ffff_ffff) by (nonlinear_arith)
            requires
                0 <= mid <= 0xffff_ffff_ffff_ffff,
        ;
        if mid * mid <= v {
            lo = mid;
        } else {
            hi = mid;
        }
    }
    lo as u64
}

/// The Euclidean distance between `p` and `q` in distance units, rounded
/// down.
pub fn point_distance(p: &[i32; 2], q: &[i32; 2]) -> (d: u64)
    ensures
        is_floor_sqrt(scaled_square(*p, *q), d as int),
        d < DISTANCE_LIMIT,
{
    let dx: i128 = p[0] as i128 - q[0] as i128;
    let dy: i128 = p[1] as i128 - q[1] as i128;
    assert(0 <= dx * dx <= 0x1_0000_0000 * 0x1_0000_0000) by (nonlinear_arith)
        requires
            -0x1_0000_0000 < dx < 0x1_0000_0000,
    ;
    assert(0 <= dy * dy <= 0x1_0000_0000 * 0x1_0000_0000) by (nonlinear_arith)
        requires
            -0x1_0000_0000 < dy < 0x1_0000_0000,
    ;
    let square: i128 = dx * dx + dy * dy;
    let scaled: i128 = 1_000_000 * square;
    let d: u64 = floor_sqrt(scaled as u128);
    assert(d < DISTANCE_LIMIT) by (nonlinear_arith)
        requires
            d * d <= scaled,
            scaled < 0x800_0000_0000 * 0x800_0000_0000,
            DISTANCE_LIMIT == 0x800_0000_0000,
    ;
    d
}

/// A square table of the distances between the points of an instance.
pub struct DistanceTable {
    rows: Vec<Vec<u64>>,
}

impl DistanceTable {
    /// The number of points.
    pub closed spec fn size(&self) -> nat {
        self.rows@.len()
    }

    /// The distance from point `i` to point `j`.
    pub closed spec fn at(&self, i: int, j: int) -> int {
        self.rows@[i]@[j] as int
    }

    /// The table is square, symmetric, zero on its diagonal, and every entry
    /// is below `DISTANCE_LIMIT`.
    pub closed spec fn wf(&self) -> bool {
        &&& self.rows@.len() <= MAX_NODES
        &&& forall|i: int| 0 <= i < self.rows@.len() ==> (#[trigger] self.rows@[i])@.len() == self.rows@.len()
        &&& forall|i: int, j: int|
            0 <= i < self.rows@.len() && 0 <= j < self.rows@.len() ==> {
                &&& self.rows@[i]@[j] == self.rows@[j]@[i]
                &&& self.rows@[i]@[j] < DISTANCE_LIMIT
            }
        &&& forall|i: int| 0 <= i < self.rows@.len() ==> (#[trigger] self.rows@[i])@[i] == 0
    }

    /// Every entry is the rounded-down Euclidean distance between the two
    /// points of `points` that it stands for.
    pub open spec fn measures(&self, points: Seq<[i32; 2]>) -> bool {
        &&& self.size() <= points.len()
        &&& forall|i: int, j: int|
            0 <= i < self.size() && 0 <= j < self.size() ==> is_floor_sqrt(
                scaled_square(points[i], points[j]),
                #[trigger] self.at(i, j),
            )
    }

    /// In a well-formed table the distance from `i` to `j` is that from `j`
    /// to `i`, the distance from a point to itself is zero, and no distance
    /// is negative or reaches `DISTANCE_LIMIT`.
    pub proof fn lemma_symmetric(&self, i: int, j: int)
        requires
            self.wf(),
            0 <= i < self.size(),
            0 <= j < self.size(),
        ensures
            self.at(i, j) == self.at(j, i),
            self.at(i, i) == 0,
            0 <= self.at(i, j) < DISTANCE_LIMIT,
            self.size() <= MAX_NODES,
    {
    }

    /// Measures the first `n` points of `points` against each other. Only
    /// pairs `i < j` are computed; the rest of the table mirrors them.
    pub fn build(points: &[[i32; 2]; MAX_NODES], n: usize) -> (table: DistanceTable)
        requires
            n <= MAX_NODES,
        ensures
            table.wf(),
            table.size() == n,
            table.measures(points@),
    {
        let mut rows: Vec<Vec<u64>> = Vec::new();
        let mut i: usize = 0;
        while i < n
            invariant
                i <= n <= MAX_NODES,
                rows@.len() == i,
                forall|a: int| 0 <= a < i ==> (#[trigger] rows@[a])@.len() == n,
                forall|a: int, b: int|
                    0 <= a < i && 0 <= b < n ==> (#[trigger] rows@[a]@[b]) < DISTANCE_LIMIT
                        && is_floor_sqrt(scaled_square(points@[a], points@[b]), rows@[a]@[b] as int),
                forall|a: int, b: int| 0 <= a < i && 0 <= b < i ==> rows@[a]@[b] == rows@[b]@[a],
                forall|a: int| 0 <= a < i ==> (#[trigger] rows@[a])@[a] == 0,
            decreases n - i,
        {
            let mut row: Vec<u64> = Vec::new();
            let mut j: usize = 0;
            while j < n
                invariant
                    i < n <= MAX_NODES,
                    j <= n,
                    rows@.len() == i,
                    row@.len() == j,
                    forall|a: int| 0 <= a < i ==> (#[trigger] rows@[a])@.len() == n,
                    forall|a: int, b: int|
                        0 <= a < i && 0 <= b < n ==> (#[trigger] rows@[a]@[b]) < DISTANCE_LIMIT
                            && is_floor_sqrt(
                            scaled_square(points@[a], points@[b]),
                            rows@[a]@[b] as int,
                        ),
                    forall|b: int|
                        0 <= b < j ==> (#[trigger] row@[b]) < DISTANCE_LIMIT && is_floor_sqrt(
                            scaled_square(points@[i as int], points@[b]),
                            row@[b] as int,
                        ),
                    forall|b: int| 0 <= b < j && b < i ==> #[trigger] row@[b] == rows@[b]@[i as int],
                    j > i ==> row@[i as int] == 0,
                decreases n - j,
            {
                let d: u64 = if j < i {
                    proof {
                        lemma_square_symmetric(points@[i as int], points@[j as int]);
                    }
                    rows[j][i]
                } else if j == i {
                    0
                } else {
                    point_distance(&points[i], &points[j])
                };
                row.push(d);
                j += 1;
            }
            rows.push(row);
            i += 1;
        }
        DistanceTable { rows }
    }

    /// The distance from point `i` to point `j`.
    pub fn get(&self, i: usize, j: usize) -> (d: u64)
        requires
            self.wf(),
            i < self.size(),
            j < self.size(),
        ensures
            d == self.at(i as int, j as int),
            d < DISTANCE_LIMIT,
    {
        self.rows[i][j]
    }

    /// The number of points.
    pub fn len(&self) -> (n: usize)
        ensures
            n == self.size(),
    {
        self.rows.len()
    }
}

/// The squared distance from `p` to `q` is that from `q` to `p`.
pub proof fn lemma_square_symmetric(p: [i32; 2], q: [i32; 2])
    ensures
        scaled_square(p, q) == scaled_square(q, p),
        scaled_square(p, p) == 0,
{
    let dx = p[0] as int - q[0] as int;
    let dy = p[1] as int - q[1] as int;
    assert(dx * dx == (-dx) * (-dx)) by (nonlinear_arith);
    assert(dy * dy == (-dy) * (-dy)) by (nonlinear_arith);
}

} // verus!
