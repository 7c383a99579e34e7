//! Broad-phase collision culling and the exact sphere-sphere test.
//!
//! Coordinates are integers (a caller working in floating point quantizes
//! conservatively: round boxes outward, so that every real overlap is still
//! an integer overlap).  The broad phase recursively splits the boxes at the
//! median center of a cycling axis; a box straddling the median lands in
//! both halves, which is what makes the candidate set a superset of every
//! truly overlapping pair.

use vstd::prelude::*;

verus! {

/// Bound on box coordinates, so that four times a coordinate and sums of two
/// doubled centers stay within `i64`.
pub const COORD_LIMIT: i64 = 0x1000_0000_0000_0000;

/// Bound on collider coordinates and radii, so that squared distances summed
/// over any dimension stay within `i128`.
pub const RADIUS_LIMIT: i64 = 0x4000_0000;

/// An axis-aligned bounding box: the two corner coordinate vectors.
pub struct BoundingBox {
    pub min: Vec<i64>,
    pub max: Vec<i64>,
}

/// Every box of the list is well-formed for dimension `dim`.
pub open spec fn boxes_wf(boxes: Seq<BoundingBox>, dim: nat) -> bool {
    forall|i: int| 0 <= i < boxes.len() ==> (#[trigger] boxes[i]).wf(dim)
}

impl BoundingBox {
    /// Corner vectors have length `dim`, are ordered, and are bounded.
    pub open spec fn wf(self, dim: nat) -> bool {
        &&& self.min@.len() == dim
        &&& self.max@.len() == dim
        &&& forall|k: int|
            0 <= k < dim ==> -COORD_LIMIT <= #[trigger] self.min@[k] <= self.max@[k] <= COORD_LIMIT
    }

    /// The boxes meet or overlap on every axis.
    pub open spec fn spec_overlaps(self, other: BoundingBox, dim: nat) -> bool {
        forall|k: int|
            0 <= k < dim ==> #[trigger] self.min@[k] <= other.max@[k] && other.min@[k]
                <= self.max@[k]
    }

    /// Twice the center coordinate on axis `n` (kept doubled: exact in
    /// integers).
    pub open spec fn spec_center2(self, n: int) -> int {
        self.min@[n] + self.max@[n]
    }

    /// Whether the boxes meet or overlap on every axis.
    pub fn overlaps(&self, other: &BoundingBox) -> (r: bool)
        requires
            self.wf(self.min@.len() as nat),
            other.wf(self.min@.len() as nat),
        ensures
            r == self.spec_overlaps(*other, self.min@.len() as nat),
    {
        let dim = self.min.len();
        let mut k: usize = 0;
        while k < dim
            invariant
                k <= dim,
                dim == self.min@.len(),
                self.wf(dim as nat),
                other.wf(dim as nat),
                forall|j: int|
                    0 <= j < k ==> #[trigger] self.min@[j] <= other.max@[j] && other.min@[j]
                        <= self.max@[j],
            decreases dim - k,
        {
            if !(self.min[k] <= other.max[k] && other.min[k] <= self.max[k]) {
                return false;
            }
            k = k + 1;
        }
        true
    }

    /// Twice the center coordinate on axis `n`.
    pub fn center2(&self, n: usize) -> (c: i64)
        requires
            self.wf(self.min@.len() as nat),
            n < self.min@.len(),
        ensures
            c == self.spec_center2(n as int),
    {
        self.min[n] + self.max[n]
    }
}

/// The sum of squared coordinate differences over the first `k` axes.
pub open spec fn dist_sq_prefix(a: Seq<i64>, b: Seq<i64>, k: int) -> int
    decreases k,
{
    if k <= 0 {
        0
    } else {
        dist_sq_prefix(a, b, k - 1) + (a[k - 1] - b[k - 1]) * (a[k - 1] - b[k - 1])
    }
}

/// A spherical collider: a center position and a radius.
pub struct Collider {
    pub size: i64,
    pub position: Vec<i64>,
}

impl Collider {
    /// The position has length `dim`, the radius is positive, and both are
    /// bounded.
    pub open spec fn wf(self, dim: nat) -> bool {
        &&& self.position@.len() == dim
        &&& 0 < self.size <= RADIUS_LIMIT
        &&& forall|k: int|
            0 <= k < dim ==> -RADIUS_LIMIT <= #[trigger] self.position@[k] <= RADIUS_LIMIT
    }

    /// The spheres collide: their center distance is strictly below the sum
    /// of the radii (squared, so exact in integers).
    pub open spec fn spec_is_collision(self, other: Collider, dim: nat) -> bool {
        dist_sq_prefix(self.position@, other.position@, dim as int) < (self.size + other.size) * (
        self.size + other.size)
    }

    /// Whether the spheres collide, by comparing the squared center distance
    /// with the squared sum of radii.
    pub fn is_collision(&self, other: &Collider) -> (r: bool)
        requires
            self.wf(self.position@.len() as nat),
            other.wf(self.position@.len() as nat),
        ensures
            r == self.spec_is_collision(*other, self.position@.len() as nat),
    {
        let dim = self.position.len();
        let mut acc: i128 = 0;
        let mut k: usize = 0;
        while k < dim
            invariant
                k <= dim,
                dim == self.position@.len(),
                self.wf(dim as nat),
                other.wf(dim as nat),
                acc == dist_sq_prefix(self.position@, other.position@, k as int),
                0 <= acc <= k * 0x4000_0000_0000_0000,
            decreases dim - k,
        {
            let d: i64 = self.position[k] - other.position[k];
            proof {
                assert(d * d <= 0x4000_0000_0000_0000) by (nonlinear_arith)
                    requires
                        -0x8000_0000 <= d <= 0x8000_0000,
                ;
                assert(d * d >= 0) by (nonlinear_arith);
                assert((k + 1) * 0x4000_0000_0000_0000 == k * 0x4000_0000_0000_0000
                    + 0x4000_0000_0000_0000) by (nonlinear_arith);
                assert(k * 0x4000_0000_0000_0000 <= 0xffff_ffff_ffff_ffff * 0x4000_0000_0000_0000)
                    by (nonlinear_arith)
                    requires
                        0 <= k <= 0xffff_ffff_ffff_ffff,
                ;
            }
            acc = acc + (d as i128) * (d as i128);
            k = k + 1;
        }
        let rsum: i64 = self.size + other.size;
        proof {
            assert(rsum * rsum <= 0x4000_0000_0000_0000) by (nonlinear_arith)
                requires
                    0 <= rsum <= 0x8000_0000,
            ;
            assert(rsum * rsum >= 0) by (nonlinear_arith);
        }
        acc < (rsum as i128) * (rsum as i128)
    }

    /// The axis-aligned bounding box of the sphere: the position shifted by
    /// the radius in each direction.
    pub fn get_bounding_box(&self) -> (bb: BoundingBox)
        requires
            self.wf(self.position@.len() as nat),
        ensures
            bb.wf(self.position@.len() as nat),
            forall|k: int|
                0 <= k < self.position@.len() ==> #[trigger] bb.min@[k] == self.position@[k]
                    - self.size && bb.max@[k] == self.position@[k] + self.size,
    {
        let dim = self.position.len();
        let mut min: Vec<i64> = Vec::new();
        let mut max: Vec<i64> = Vec::new();
        let mut k: usize = 0;
        while k < dim
            invariant
                k <= dim,
                dim == self.position@.len(),
                self.wf(dim as nat),
                min@.len() == k,
                max@.len() == k,
                forall|j: int|
                    0 <= j < k ==> #[trigger] min@[j] == self.position@[j] - self.size && max@[j]
                        == self.position@[j] + self.size,
            decreases dim - k,
        {
            min.push(self.position[k] - self.size);
            max.push(self.position[k] + self.size);
            k = k + 1;
        }
        BoundingBox { min, max }
    }
}

/// The candidate list contains the unordered pair `{i, j}`.
pub open spec fn reports(s: Seq<(usize, usize)>, i: usize, j: usize) -> bool {
    exists|k: int|
        0 <= k < s.len() && ((#[trigger] s[k]).0 == i && s[k].1 == j || s[k].0 == j && s[k].1 == i)
}

/// Everything the first list reports, a list extending it reports too.
proof fn lemma_reports_extended(s1: Seq<(usize, usize)>, s2: Seq<(usize, usize)>, i: usize, j: usize)
    requires
        s1.len() <= s2.len(),
        forall|k: int| 0 <= k < s1.len() ==> s1[k] == s2[k],
        reports(s1, i, j),
    ensures
        reports(s2, i, j),
{
    let k = choose|k: int|
        0 <= k < s1.len() && ((#[trigger] s1[k]).0 == i && s1[k].1 == j || s1[k].0 == j && s1[k].1
            == i);
    assert(s2[k] == s1[k]);
}

/// Overlapping is symmetric.
proof fn lemma_overlaps_sym(a: BoundingBox, b: BoundingBox, dim: nat)
    requires
        a.spec_overlaps(b, dim),
    ensures
        b.spec_overlaps(a, dim),
{
    assert forall|k: int| 0 <= k < dim implies #[trigger] b.min@[k] <= a.max@[k] && a.min@[k]
        <= b.max@[k] by {
        assert(a.min@[k] <= b.max@[k] && b.min@[k] <= a.max@[k]);
    }
}

/// The box sits left of the split: its minimum is at most the median
/// (both sides scaled by four).
pub open spec fn below_split(b: BoundingBox, n: int, m4: int) -> bool {
    4 * b.min@[n] <= m4
}

/// The box reaches the split or beyond: its maximum is at least the median
/// (both sides scaled by four).
pub open spec fn above_split(b: BoundingBox, n: int, m4: int) -> bool {
    4 * b.max@[n] >= m4
}

/// Two overlapping boxes that do not both sit left of the split both reach
/// it: a pair is never separated by the partition.
proof fn lemma_pair_covered(bi: BoundingBox, bj: BoundingBox, dim: nat, n: int, m4: int)
    requires
        bi.wf(dim),
        bj.wf(dim),
        0 <= n < dim,
        bi.spec_overlaps(bj, dim),
        !(below_split(bi, n, m4) && below_split(bj, n, m4)),
    ensures
        above_split(bi, n, m4),
        above_split(bj, n, m4),
{
    assert(bi.min@[n] <= bj.max@[n] && bj.min@[n] <= bi.max@[n]);
}

/// The indices of `idxs` whose box satisfies the chosen side predicate, in
/// order: `below_split` when `lower`, `above_split` otherwise.
fn filter_axis(
    boxes: &Vec<BoundingBox>,
    idxs: &Vec<usize>,
    n: usize,
    m4: i64,
    lower: bool,
    dim: usize,
) -> (r: Vec<usize>)
    requires
        boxes_wf(boxes@, dim as nat),
        n < dim,
        forall|u: int| 0 <= u < idxs@.len() ==> #[trigger] idxs@[u] < boxes@.len(),
        idxs@.no_duplicates(),
    ensures
        r@.no_duplicates(),
        r@.len() <= idxs@.len(),
        r@.len() == idxs@.len() ==> r@ == idxs@,
        forall|u: int| 0 <= u < r@.len() ==> #[trigger] r@[u] < boxes@.len(),
        forall|x: usize|
            #[trigger] r@.contains(x) <==> idxs@.contains(x) && (if lower {
                below_split(boxes@[x as int], n as int, m4 as int)
            } else {
                above_split(boxes@[x as int], n as int, m4 as int)
            }),
{
    let mut out: Vec<usize> = Vec::new();
    let mut u: usize = 0;
    while u < idxs.len()
        invariant
            u <= idxs@.len(),
            boxes_wf(boxes@, dim as nat),
            n < dim,
            forall|w: int| 0 <= w < idxs@.len() ==> #[trigger] idxs@[w] < boxes@.len(),
            idxs@.no_duplicates(),
            out@.no_duplicates(),
            out@.len() <= u,
            out@.len() == u ==> out@ == idxs@.take(u as int),
            forall|w: int| 0 <= w < out@.len() ==> #[trigger] out@[w] < boxes@.len(),
            forall|x: usize|
                #[trigger] out@.contains(x) <==> idxs@.take(u as int).contains(x) && (if lower {
                    below_split(boxes@[x as int], n as int, m4 as int)
                } else {
                    above_split(boxes@[x as int], n as int, m4 as int)
                }),
        decreases idxs@.len() - u,
    {
        let x = idxs[u];
        let b = &boxes[x];
        proof {
            assert(boxes@[x as int].wf(dim as nat));
            assert(-COORD_LIMIT <= boxes@[x as int].min@[n as int] <= boxes@[x as int].max@[
                n as int
            ] <= COORD_LIMIT);
        }
        let hit = if lower {
            4 * b.min[n] <= m4
        } else {
            4 * b.max[n] >= m4
        };
        let ghost prev = out@;
        if hit {
            proof {
                if out@.contains(x) {
                    let w = choose|w: int| 0 <= w < out@.len() && out@[w] == x;
                    assert(idxs@.take(u as int).contains(x));
                    let v = choose|v: int| 0 <= v < u && #[trigger] idxs@.take(u as int)[v] == x;
                    assert(idxs@[v] == idxs@[u as int]);
                    assert(false);
                }
            }
            out.push(x);
        }
        u = u + 1;
        proof {
            assert(idxs@.take(u as int) =~= idxs@.take(u as int - 1).push(idxs@[u as int - 1]));
            if hit {
                assert forall|y: usize| #[trigger] out@.contains(y) implies idxs@.take(
                    u as int,
                ).contains(y) && (if lower {
                    below_split(boxes@[y as int], n as int, m4 as int)
                } else {
                    above_split(boxes@[y as int], n as int, m4 as int)
                }) by {
                    let w = choose|w: int| 0 <= w < out@.len() && out@[w] == y;
                    if w < prev.len() {
                        assert(prev.contains(y));
                        assert(idxs@.take(u as int - 1).contains(y));
                        let v = choose|v: int|
                            0 <= v < u - 1 && #[trigger] idxs@.take(u as int - 1)[v] == y;
                        assert(idxs@.take(u as int)[v] == y);
                    } else {
                        assert(y == idxs@[u as int - 1]);
                        assert(idxs@.take(u as int)[u as int - 1] == y);
                    }
                }
                assert forall|y: usize|
                    idxs@.take(u as int).contains(y) && (if lower {
                        below_split(boxes@[y as int], n as int, m4 as int)
                    } else {
                        above_split(boxes@[y as int], n as int, m4 as int)
                    }) implies #[trigger] out@.contains(y) by {
                    let v = choose|v: int| 0 <= v < u && #[trigger] idxs@.take(u as int)[v] == y;
                    if v < u - 1 {
                        assert(idxs@.take(u as int - 1)[v] == y);
                        assert(idxs@.take(u as int - 1).contains(y));
                        assert(prev.contains(y));
                        let w = choose|w: int| 0 <= w < prev.len() && prev[w] == y;
                        assert(out@[w] == y);
                    } else {
                        assert(y == idxs@[u as int - 1]);
                        assert(out@[out@.len() - 1] == y);
                    }
                }
                if out@.len() == u {
                    assert(prev.len() == u - 1);
                    assert(prev == idxs@.take(u as int - 1));
                    assert(out@ =~= idxs@.take(u as int));
                }
            } else {
                assert forall|y: usize| #[trigger] out@.contains(y) implies idxs@.take(
                    u as int,
                ).contains(y) by {
                    assert(idxs@.take(u as int - 1).contains(y));
                    let v = choose|v: int| 0 <= v < u - 1 && #[trigger] idxs@.take(u as int - 1)[v] == y;
                    assert(idxs@.take(u as int)[v] == y);
                }
                assert forall|y: usize|
                    idxs@.take(u as int).contains(y) && (if lower {
                        below_split(boxes@[y as int], n as int, m4 as int)
                    } else {
                        above_split(boxes@[y as int], n as int, m4 as int)
                    }) implies #[trigger] out@.contains(y) by {
                    let v = choose|v: int| 0 <= v < u && #[trigger] idxs@.take(u as int)[v] == y;
                    if v < u - 1 {
                        assert(idxs@.take(u as int - 1)[v] == y);
                        assert(idxs@.take(u as int - 1).contains(y));
                    } else {
                        assert(y == idxs@[u as int - 1]);
                        assert(!(if lower {
                            below_split(boxes@[y as int], n as int, m4 as int)
                        } else {
                            above_split(boxes@[y as int], n as int, m4 as int)
                        }));
                    }
                }
            }
        }
    }
    proof {
        assert(idxs@.take(idxs@.len() as int) =~= idxs@);
    }
    out
}

/// Swapping two positions keeps the length, the members, and distinctness.
proof fn lemma_swap_perm(s: Seq<usize>, i: int, j: int)
    requires
        0 <= i < s.len(),
        0 <= j < s.len(),
    ensures
        ({
            let t = s.update(i, s[j]).update(j, s[i]);
            &&& t.len() == s.len()
            &&& forall|x: usize| #[trigger] t.contains(x) == s.contains(x)
            &&& (s.no_duplicates() ==> t.no_duplicates())
        }),
{
    let t = s.update(i, s[j]).update(j, s[i]);
    assert forall|x: usize| #[trigger] s.contains(x) implies t.contains(x) by {
        let w = choose|w: int| 0 <= w < s.len() && s[w] == x;
        if w == j {
            assert(t[i] == x || t[j] == x);
        } else if w == i {
            assert(t[j] == x);
        } else {
            assert(t[w] == x);
        }
    }
    assert forall|x: usize| #[trigger] t.contains(x) implies s.contains(x) by {
        let w = choose|w: int| 0 <= w < t.len() && t[w] == x;
        if w == j {
            assert(s[i] == x);
        } else if w == i {
            assert(s[j] == x);
        } else {
            assert(s[w] == x);
        }
    }
    if s.no_duplicates() {
        assert forall|a: int, b: int| 0 <= a < t.len() && 0 <= b < t.len() && a != b implies t[a]
            != t[b] by {
            assert(t[a] == s[if a == i { j } else if a == j { i } else { a }]);
            assert(t[b] == s[if b == i { j } else if b == j { i } else { b }]);
        }
    }
}

/// The index list is ordered by the boxes' centers on axis `n`.
pub open spec fn sorted_by_center(boxes: Seq<BoundingBox>, idxs: Seq<usize>, n: int) -> bool {
    forall|u: int, v: int|
        0 <= u < v < idxs.len() ==> (#[trigger] boxes[idxs[u] as int]).spec_center2(n)
            <= (#[trigger] boxes[idxs[v] as int]).spec_center2(n)
}

/// Sorts the index list by the boxes' centers on axis `n` (selection sort;
/// the members and their distinctness are preserved).
fn sort_by_center(boxes: &Vec<BoundingBox>, idxs: &mut Vec<usize>, n: usize, dim: usize)
    requires
        boxes_wf(boxes@, dim as nat),
        n < dim,
        forall|u: int| 0 <= u < old(idxs)@.len() ==> #[trigger] old(idxs)@[u] < boxes@.len(),
        old(idxs)@.no_duplicates(),
    ensures
        final(idxs)@.len() == old(idxs)@.len(),
        final(idxs)@.no_duplicates(),
        forall|x: usize| #[trigger] final(idxs)@.contains(x) == old(idxs)@.contains(x),
        forall|u: int| 0 <= u < final(idxs)@.len() ==> #[trigger] final(idxs)@[u] < boxes@.len(),
        sorted_by_center(boxes@, final(idxs)@, n as int),
{
    let len = idxs.len();
    let mut u: usize = 0;
    while u < len
        invariant
            u <= len,
            len == idxs@.len(),
            boxes_wf(boxes@, dim as nat),
            n < dim,
            idxs@.no_duplicates(),
            forall|x: usize| #[trigger] idxs@.contains(x) == old(idxs)@.contains(x),
            forall|w: int| 0 <= w < idxs@.len() ==> #[trigger] idxs@[w] < boxes@.len(),
            forall|a: int, b: int|
                0 <= a < b < u ==> (#[trigger] boxes@[idxs@[a] as int]).spec_center2(n as int)
                    <= (#[trigger] boxes@[idxs@[b] as int]).spec_center2(n as int),
            forall|a: int, b: int|
                0 <= a < u && u <= b < len ==> (#[trigger] boxes@[idxs@[a] as int]).spec_center2(
                    n as int,
                ) <= (#[trigger] boxes@[idxs@[b] as int]).spec_center2(n as int),
        decreases len - u,
    {
        let mut best: usize = u;
        let mut v: usize = u + 1;
        while v < len
            invariant
                u <= best < v <= len,
                len == idxs@.len(),
                boxes_wf(boxes@, dim as nat),
                n < dim,
                forall|w: int| 0 <= w < idxs@.len() ==> #[trigger] idxs@[w] < boxes@.len(),
                forall|w: int|
                    u <= w < v ==> boxes@[idxs@[best as int] as int].spec_center2(n as int)
                        <= (#[trigger] boxes@[idxs@[w] as int]).spec_center2(n as int),
            decreases len - v,
        {
            if boxes[idxs[v]].center2(n) < boxes[idxs[best]].center2(n) {
                best = v;
            }
            v = v + 1;
        }
        let ghost snap = idxs@;
        let xu = idxs[u];
        let xb = idxs[best];
        idxs[u] = xb;
        idxs[best] = xu;
        proof {
            lemma_swap_perm(snap, u as int, best as int);
            assert(idxs@ =~= snap.update(u as int, snap[best as int]).update(
                best as int,
                snap[u as int],
            ));
        }
        u = u + 1;
    }
}

/// Tests every pair of the listed boxes directly: the exact overlap set of
/// a small residual that no axis could split.
fn fallback_pairs(boxes: &Vec<BoundingBox>, idxs: &Vec<usize>, dim: usize) -> (r: Vec<
    (usize, usize),
>)
    requires
        boxes_wf(boxes@, dim as nat),
        forall|u: int| 0 <= u < idxs@.len() ==> #[trigger] idxs@[u] < boxes@.len(),
        idxs@.no_duplicates(),
    ensures
        forall|k: int|
            0 <= k < r@.len() ==> idxs@.contains((#[trigger] r@[k]).0) && idxs@.contains(r@[k].1)
                && r@[k].0 != r@[k].1 && boxes@[r@[k].0 as int].spec_overlaps(
                boxes@[r@[k].1 as int],
                dim as nat,
            ),
        forall|i: usize, j: usize|
            idxs@.contains(i) && idxs@.contains(j) && i != j && boxes@[i as int].spec_overlaps(
                boxes@[j as int],
                dim as nat,
            ) ==> reports(r@, i, j),
{
    let len = idxs.len();
    let mut out: Vec<(usize, usize)> = Vec::new();
    let mut u: usize = 0;
    while u < len
        invariant
            u <= len,
            len == idxs@.len(),
            boxes_wf(boxes@, dim as nat),
            forall|w: int| 0 <= w < idxs@.len() ==> #[trigger] idxs@[w] < boxes@.len(),
            idxs@.no_duplicates(),
            forall|k: int|
                0 <= k < out@.len() ==> idxs@.contains((#[trigger] out@[k]).0) && idxs@.contains(
                    out@[k].1,
                ) && out@[k].0 != out@[k].1 && boxes@[out@[k].0 as int].spec_overlaps(
                    boxes@[out@[k].1 as int],
                    dim as nat,
                ),
            forall|a: int, b: int|
                #![trigger idxs@[a], idxs@[b]]
                0 <= a < b < len && a < u && boxes@[idxs@[a] as int].spec_overlaps(
                    boxes@[idxs@[b] as int],
                    dim as nat,
                ) ==> reports(out@, idxs@[a], idxs@[b]),
        decreases len - u,
    {
        let mut v: usize = u + 1;
        while v < len
            invariant
                u < v <= len || u + 1 == v,
                u < len,
                v >= u + 1,
                len == idxs@.len(),
                boxes_wf(boxes@, dim as nat),
                forall|w: int| 0 <= w < idxs@.len() ==> #[trigger] idxs@[w] < boxes@.len(),
                idxs@.no_duplicates(),
                forall|k: int|
                    0 <= k < out@.len() ==> idxs@.contains((#[trigger] out@[k]).0)
                        && idxs@.contains(out@[k].1) && out@[k].0 != out@[k].1 && boxes@[out@[
                        k
                    ].0 as int].spec_overlaps(boxes@[out@[k].1 as int], dim as nat),
                forall|a: int, b: int|
                    #![trigger idxs@[a], idxs@[b]]
                    0 <= a < b < len && a < u && boxes@[idxs@[a] as int].spec_overlaps(
                        boxes@[idxs@[b] as int],
                        dim as nat,
                    ) ==> reports(out@, idxs@[a], idxs@[b]),
                forall|b: int|
                    u < b < v && boxes@[idxs@[u as int] as int].spec_overlaps(
                        boxes@[idxs@[b] as int],
                        dim as nat,
                    ) ==> reports(out@, idxs@[u as int], #[trigger] idxs@[b]),
            decreases len - v,
        {
            let ghost prev = out@;
            let i = idxs[u];
            let j = idxs[v];
            if boxes[i].overlaps(&boxes[j]) {
                out.push((i, j));
            }
            v = v + 1;
            proof {
                assert forall|a: int, b: int|
                    #![trigger idxs@[a], idxs@[b]]
                    0 <= a < b < len && a < u && boxes@[idxs@[a] as int].spec_overlaps(
                        boxes@[idxs@[b] as int],
                        dim as nat,
                    ) implies reports(out@, idxs@[a], idxs@[b]) by {
                    lemma_reports_extended(prev, out@, idxs@[a], idxs@[b]);
                }
                assert forall|b: int|
                    u < b < v && boxes@[idxs@[u as int] as int].spec_overlaps(
                        boxes@[idxs@[b] as int],
                        dim as nat,
                    ) implies reports(out@, idxs@[u as int], #[trigger] idxs@[b]) by {
                    if b < v - 1 {
                        lemma_reports_extended(prev, out@, idxs@[u as int], idxs@[b]);
                    } else {
                        assert(out@[out@.len() - 1] == (i, j));
                    }
                }
            }
        }
        u = u + 1;
    }
    proof {
        assert forall|i: usize, j: usize|
            idxs@.contains(i) && idxs@.contains(j) && i != j && boxes@[i as int].spec_overlaps(
                boxes@[j as int],
                dim as nat,
            ) implies reports(out@, i, j) by {
            let a = choose|a: int| 0 <= a < idxs@.len() && idxs@[a] == i;
            let b = choose|b: int| 0 <= b < idxs@.len() && idxs@[b] == j;
            if a < b {
                assert(reports(out@, idxs@[a], idxs@[b]));
            } else {
                lemma_overlaps_sym(boxes@[i as int], boxes@[j as int], dim as nat);
                assert(reports(out@, idxs@[b], idxs@[a]));
            }
        }
    }
    out
}

/// What a list reports, its extension by a suffix reports too.
proof fn lemma_reports_concat(s1: Seq<(usize, usize)>, s2: Seq<(usize, usize)>, i: usize, j: usize)
    requires
        reports(s1, i, j) || reports(s2, i, j),
    ensures
        reports(s1 + s2, i, j),
{
    if reports(s1, i, j) {
        let k = choose|k: int|
            0 <= k < s1.len() && ((#[trigger] s1[k]).0 == i && s1[k].1 == j || s1[k].0 == j
                && s1[k].1 == i);
        assert((s1 + s2)[k] == s1[k]);
    } else {
        let k = choose|k: int|
            0 <= k < s2.len() && ((#[trigger] s2[k]).0 == i && s2[k].1 == j || s2[k].0 == j
                && s2[k].1 == i);
        assert((s1 + s2)[k + s1.len()] == s2[k]);
    }
}

/// Twice the center of the box at index `x`, on axis `n`, with its bounds.
fn center2_of(boxes: &Vec<BoundingBox>, x: usize, n: usize, dim: usize) -> (c: i64)
    requires
        boxes_wf(boxes@, dim as nat),
        x < boxes@.len(),
        n < dim,
    ensures
        c == boxes@[x as int].spec_center2(n as int),
        -0x2000_0000_0000_0000 <= c <= 0x2000_0000_0000_0000,
{
    proof {
        assert(boxes@[x as int].wf(dim as nat));
        assert(-COORD_LIMIT <= boxes@[x as int].min@[n as int] <= boxes@[x as int].max@[n as int]
            <= COORD_LIMIT);
    }
    boxes[x].center2(n)
}

/// A result correct for one index list is correct for any list with the
/// same members.
proof fn lemma_result_transfer(
    r: Seq<(usize, usize)>,
    from: Seq<usize>,
    to: Seq<usize>,
    boxes: Seq<BoundingBox>,
    dim: nat,
)
    requires
        forall|x: usize| #[trigger] from.contains(x) == to.contains(x),
        forall|k: int|
            0 <= k < r.len() ==> from.contains((#[trigger] r[k]).0) && from.contains(r[k].1)
                && r[k].0 != r[k].1 && boxes[r[k].0 as int].spec_overlaps(
                boxes[r[k].1 as int],
                dim,
            ),
        forall|i: usize, j: usize|
            #![trigger from.contains(i), from.contains(j)]
            from.contains(i) && from.contains(j) && i != j && boxes[i as int].spec_overlaps(
                boxes[j as int],
                dim,
            ) ==> reports(r, i, j),
    ensures
        forall|k: int|
            0 <= k < r.len() ==> to.contains((#[trigger] r[k]).0) && to.contains(r[k].1) && r[k].0
                != r[k].1 && boxes[r[k].0 as int].spec_overlaps(boxes[r[k].1 as int], dim),
        forall|i: usize, j: usize|
            #![trigger to.contains(i), to.contains(j)]
            to.contains(i) && to.contains(j) && i != j && boxes[i as int].spec_overlaps(
                boxes[j as int],
                dim,
            ) ==> reports(r, i, j),
{
    assert forall|k: int| 0 <= k < r.len() implies to.contains((#[trigger] r[k]).0) && to.contains(
        r[k].1,
    ) && r[k].0 != r[k].1 && boxes[r[k].0 as int].spec_overlaps(boxes[r[k].1 as int], dim) by {
        assert(from.contains(r[k].0) && from.contains(r[k].1));
    }
    assert forall|i: usize, j: usize|
        #![trigger to.contains(i), to.contains(j)]
        to.contains(i) && to.contains(j) && i != j && boxes[i as int].spec_overlaps(
            boxes[j as int],
            dim,
        ) implies reports(r, i, j) by {
        assert(from.contains(i) && from.contains(j));
    }
}

/// The candidate list is exactly the overlap relation: every listed pair is
/// a distinct overlapping pair, and every distinct overlapping pair is
/// listed (in one order or the other).
pub open spec fn candidate_pairs_exact(
    r: Seq<(usize, usize)>,
    boxes: Seq<BoundingBox>,
    dim: nat,
) -> bool {
    &&& forall|k: int|
        0 <= k < r.len() ==> (#[trigger] r[k]).0 < boxes.len() && r[k].1 < boxes.len() && r[k].0
            != r[k].1 && boxes[r[k].0 as int].spec_overlaps(boxes[r[k].1 as int], dim)
    &&& forall|i: usize, j: usize|
        #![trigger boxes[i as int], boxes[j as int]]
        i < boxes.len() && j < boxes.len() && i != j && boxes[i as int].spec_overlaps(
            boxes[j as int],
            dim,
        ) ==> reports(r, i, j)
}

/// The recursive median split: sorts the listed boxes by center on axis
/// `n`, parts them at the median (a straddling box lands in both halves),
/// and recurses, falling back to pairwise tests once every axis has failed
/// to shrink the set.
fn possible_collisions_recursive(
    boxes: &Vec<BoundingBox>,
    idxs: Vec<usize>,
    n: usize,
    n_not: usize,
    dim: usize,
) -> (r: Vec<(usize, usize)>)
    requires
        boxes_wf(boxes@, dim as nat),
        1 <= dim,
        n < dim,
        n_not <= dim,
        forall|u: int| 0 <= u < idxs@.len() ==> #[trigger] idxs@[u] < boxes@.len(),
        idxs@.no_duplicates(),
    ensures
        forall|k: int|
            0 <= k < r@.len() ==> idxs@.contains((#[trigger] r@[k]).0) && idxs@.contains(r@[k].1)
                && r@[k].0 != r@[k].1 && boxes@[r@[k].0 as int].spec_overlaps(
                boxes@[r@[k].1 as int],
                dim as nat,
            ),
        forall|i: usize, j: usize|
            #![trigger idxs@.contains(i), idxs@.contains(j)]
            idxs@.contains(i) && idxs@.contains(j) && i != j && boxes@[i as int].spec_overlaps(
                boxes@[j as int],
                dim as nat,
            ) ==> reports(r@, i, j),
    decreases idxs@.len(), dim - n_not,
{
    let ghost orig = idxs@;
    if idxs.len() == 0 {
        return Vec::new();
    }
    let mut idxs = idxs;
    sort_by_center(boxes, &mut idxs, n, dim);
    let len = idxs.len();
    let m4: i64 = if len % 2 == 0 {
        center2_of(boxes, idxs[len / 2], n, dim) + center2_of(boxes, idxs[len / 2 - 1], n, dim)
    } else {
        2 * center2_of(boxes, idxs[(len - 1) / 2], n, dim)
    };
    let a = filter_axis(boxes, &idxs, n, m4, true, dim);
    if a.len() == idxs.len() {
        let ghost av = a@;
        proof {
            assert(av == idxs@);
            assert forall|x: usize| #[trigger] av.contains(x) == orig.contains(x) by {
                assert(idxs@.contains(x) == orig.contains(x));
            }
        }
        if n_not >= dim {
            let r = fallback_pairs(boxes, &a, dim);
            proof {
                lemma_result_transfer(r@, av, orig, boxes@, dim as nat);
            }
            return r;
        } else {
            let next_axis = (n + 1) % dim;
            let r = possible_collisions_recursive(boxes, a, next_axis, n_not + 1, dim);
            proof {
                lemma_result_transfer(r@, av, orig, boxes@, dim as nat);
            }
            return r;
        }
    }
    let b = filter_axis(boxes, &idxs, n, m4, false, dim);
    if b.len() == idxs.len() {
        let ghost bv = b@;
        proof {
            assert(bv == idxs@);
            assert forall|x: usize| #[trigger] bv.contains(x) == orig.contains(x) by {
                assert(idxs@.contains(x) == orig.contains(x));
            }
        }
        if n_not >= dim {
            let r = fallback_pairs(boxes, &b, dim);
            proof {
                lemma_result_transfer(r@, bv, orig, boxes@, dim as nat);
            }
            return r;
        } else {
            let next_axis = (n + 1) % dim;
            let r = possible_collisions_recursive(boxes, b, next_axis, n_not + 1, dim);
            proof {
                lemma_result_transfer(r@, bv, orig, boxes@, dim as nat);
            }
            return r;
        }
    }
    let ghost aview = a@;
    let ghost bview = b@;
    let mut result: Vec<(usize, usize)>;
    if a.len() == 2 {
        let i = a[0];
        let j = a[1];
        let mut pairs: Vec<(usize, usize)> = Vec::new();
        if boxes[i].overlaps(&boxes[j]) {
            pairs.push((i, j));
        }
        proof {
            assert(aview.contains(aview[0]));
            assert(aview.contains(aview[1]));
            assert forall|x: usize, y: usize|
                #![trigger aview.contains(x), aview.contains(y)]
                aview.contains(x) && aview.contains(y) && x != y && boxes@[
                    x as int
                ].spec_overlaps(boxes@[y as int], dim as nat) implies reports(pairs@, x, y) by {
                let px = choose|p: int| 0 <= p < 2 && aview[p] == x;
                let py = choose|p: int| 0 <= p < 2 && aview[p] == y;
                if px == 0 {
                    assert(x == i && y == j);
                } else {
                    assert(x == j && y == i);
                    lemma_overlaps_sym(boxes@[x as int], boxes@[y as int], dim as nat);
                }
                assert(pairs@[0] == (i, j));
            }
        }
        result = pairs;
    } else {
        let next_axis = (n + 1) % dim;
        result = possible_collisions_recursive(boxes, a, next_axis, 0, dim);
    }
    let ghost ra = result@;
    let mut rb: Vec<(usize, usize)>;
    if b.len() == 2 {
        let i = b[0];
        let j = b[1];
        let mut pairs: Vec<(usize, usize)> = Vec::new();
        if boxes[i].overlaps(&boxes[j]) {
            pairs.push((i, j));
        }
        proof {
            assert(bview.contains(bview[0]));
            assert(bview.contains(bview[1]));
            assert forall|x: usize, y: usize|
                #![trigger bview.contains(x), bview.contains(y)]
                bview.contains(x) && bview.contains(y) && x != y && boxes@[
                    x as int
                ].spec_overlaps(boxes@[y as int], dim as nat) implies reports(pairs@, x, y) by {
                let px = choose|p: int| 0 <= p < 2 && bview[p] == x;
                let py = choose|p: int| 0 <= p < 2 && bview[p] == y;
                if px == 0 {
                    assert(x == i && y == j);
                } else {
                    assert(x == j && y == i);
                    lemma_overlaps_sym(boxes@[x as int], boxes@[y as int], dim as nat);
                }
                assert(pairs@[0] == (i, j));
            }
        }
        rb = pairs;
    } else {
        let next_axis = (n + 1) % dim;
        rb = possible_collisions_recursive(boxes, b, next_axis, 0, dim);
    }
    let ghost rbv = rb@;
    result.append(&mut rb);
    proof {
        assert(result@ == ra + rbv);
        assert forall|k: int|
            0 <= k < result@.len() implies orig.contains((#[trigger] result@[k]).0)
            && orig.contains(result@[k].1) && result@[k].0 != result@[k].1 && boxes@[result@[
            k
        ].0 as int].spec_overlaps(boxes@[result@[k].1 as int], dim as nat) by {
            if k < ra.len() {
                assert(result@[k] == ra[k]);
                assert(aview.contains(ra[k].0) && aview.contains(ra[k].1));
            } else {
                assert(result@[k] == rbv[k - ra.len()]);
                assert(bview.contains(rbv[k - ra.len()].0) && bview.contains(
                    rbv[k - ra.len()].1,
                ));
            }
            assert(idxs@.contains(result@[k].0) && idxs@.contains(result@[k].1));
            assert(orig.contains(result@[k].0) == idxs@.contains(result@[k].0));
            assert(orig.contains(result@[k].1) == idxs@.contains(result@[k].1));
        }
        assert forall|i: usize, j: usize|
            #![trigger orig.contains(i), orig.contains(j)]
            orig.contains(i) && orig.contains(j) && i != j && boxes@[i as int].spec_overlaps(
                boxes@[j as int],
                dim as nat,
            ) implies reports(result@, i, j) by {
            assert(idxs@.contains(i) == orig.contains(i));
            assert(idxs@.contains(j) == orig.contains(j));
            if below_split(boxes@[i as int], n as int, m4 as int) && below_split(
                boxes@[j as int],
                n as int,
                m4 as int,
            ) {
                assert(aview.contains(i) && aview.contains(j));
                lemma_reports_concat(ra, rbv, i, j);
            } else {
                lemma_pair_covered(
                    boxes@[i as int],
                    boxes@[j as int],
                    dim as nat,
                    n as int,
                    m4 as int,
                );
                assert(bview.contains(i) && bview.contains(j));
                lemma_reports_concat(ra, rbv, i, j);
            }
        }
    }
    result
}

/// The broad phase: the candidate pairs of the given boxes, exactly the
/// pairs whose boxes overlap (a pair may be listed more than once).  The
/// soundness half of the contract is the guarantee the narrow phase relies
/// on: no truly overlapping pair is missing.
pub fn possible_collisions(boxes: &Vec<BoundingBox>, dim: usize) -> (r: Vec<(usize, usize)>)
    requires
        1 <= dim,
        boxes_wf(boxes@, dim as nat),
    ensures
        candidate_pairs_exact(r@, boxes@, dim as nat),
{
    if boxes.len() < 2 {
        return Vec::new();
    }
    let mut idxs: Vec<usize> = Vec::new();
    let mut i: usize = 0;
    while i < boxes.len()
        invariant
            i <= boxes@.len(),
            idxs@.len() == i,
            forall|w: int| 0 <= w < i ==> #[trigger] idxs@[w] == w,
        decreases boxes@.len() - i,
    {
        idxs.push(i);
        i = i + 1;
    }
    proof {
        assert forall|u: int, v: int|
            0 <= u < idxs@.len() && 0 <= v < idxs@.len() && u != v implies idxs@[u] != idxs@[v] by {
            assert(idxs@[u] == u && idxs@[v] == v);
        }
        assert(idxs@.no_duplicates());
        assert forall|x: usize| x < boxes@.len() implies #[trigger] idxs@.contains(x) by {
            assert(idxs@[x as int] == x);
        }
    }
    let ghost idv = idxs@;
    let r = possible_collisions_recursive(boxes, idxs, 0, 0, dim);
    proof {
        assert forall|k: int|
            0 <= k < r@.len() implies (#[trigger] r@[k]).0 < boxes@.len() && r@[k].1
            < boxes@.len() && r@[k].0 != r@[k].1 && boxes@[r@[k].0 as int].spec_overlaps(
            boxes@[r@[k].1 as int],
            dim as nat,
        ) by {
            let w0 = choose|w: int| 0 <= w < idv.len() && idv[w] == r@[k].0;
            let w1 = choose|w: int| 0 <= w < idv.len() && idv[w] == r@[k].1;
            assert(idv[w0] == w0 && idv[w1] == w1);
        }
        assert forall|i: usize, j: usize|
            #![trigger boxes@[i as int], boxes@[j as int]]
            i < boxes@.len() && j < boxes@.len() && i != j && boxes@[i as int].spec_overlaps(
                boxes@[j as int],
                dim as nat,
            ) implies reports(r@, i, j) by {
            assert(idv[i as int] == i);
            assert(idv[j as int] == j);
            assert(idv.contains(i) && idv.contains(j));
        }
    }
    r
}

/// A squared-distance prefix sum is nonnegative.
proof fn lemma_dist_sq_nonneg(x: Seq<i64>, y: Seq<i64>, m: int)
    ensures
        dist_sq_prefix(x, y, m) >= 0,
    decreases m,
{
    if m > 0 {
        lemma_dist_sq_nonneg(x, y, m - 1);
        assert((x[m - 1] - y[m - 1]) * (x[m - 1] - y[m - 1]) >= 0) by (nonlinear_arith);
    }
}

/// Each squared term is at most the whole squared-distance sum.
proof fn lemma_dist_sq_term_bound(x: Seq<i64>, y: Seq<i64>, k: int, m: int)
    requires
        0 <= k < m,
    ensures
        dist_sq_prefix(x, y, m) >= (x[k] - y[k]) * (x[k] - y[k]),
    decreases m,
{
    if k == m - 1 {
        lemma_dist_sq_nonneg(x, y, m - 1);
    } else {
        lemma_dist_sq_term_bound(x, y, k, m - 1);
        assert((x[m - 1] - y[m - 1]) * (x[m - 1] - y[m - 1]) >= 0) by (nonlinear_arith);
    }
}

/// The squared distance does not depend on the order of its endpoints.
proof fn lemma_dist_sq_sym(x: Seq<i64>, y: Seq<i64>, m: int)
    ensures
        dist_sq_prefix(x, y, m) == dist_sq_prefix(y, x, m),
    decreases m,
{
    if m > 0 {
        lemma_dist_sq_sym(x, y, m - 1);
        assert((x[m - 1] - y[m - 1]) * (x[m - 1] - y[m - 1]) == (y[m - 1] - x[m - 1]) * (y[m - 1]
            - x[m - 1])) by (nonlinear_arith);
    }
}

/// Colliding is symmetric.
proof fn lemma_collision_sym(a: Collider, b: Collider, dim: nat)
    requires
        a.spec_is_collision(b, dim),
    ensures
        b.spec_is_collision(a, dim),
{
    lemma_dist_sq_sym(a.position@, b.position@, dim as int);
}

/// Colliding spheres have overlapping bounding boxes: the broad phase never
/// loses a real collision.
proof fn lemma_collision_boxes_overlap(
    a: Collider,
    b: Collider,
    ba: BoundingBox,
    bb: BoundingBox,
    dim: nat,
)
    requires
        a.wf(dim),
        b.wf(dim),
        a.spec_is_collision(b, dim),
        forall|k: int|
            0 <= k < dim ==> #[trigger] ba.min@[k] == a.position@[k] - a.size && ba.max@[k]
                == a.position@[k] + a.size,
        forall|k: int|
            0 <= k < dim ==> #[trigger] bb.min@[k] == b.position@[k] - b.size && bb.max@[k]
                == b.position@[k] + b.size,
    ensures
        ba.spec_overlaps(bb, dim),
{
    let s = a.size + b.size;
    assert forall|k: int| 0 <= k < dim implies #[trigger] ba.min@[k] <= bb.max@[k] && bb.min@[k]
        <= ba.max@[k] by {
        lemma_dist_sq_term_bound(a.position@, b.position@, k, dim as int);
        let d = a.position@[k] - b.position@[k];
        assert(dist_sq_prefix(a.position@, b.position@, dim as int) < s * s);
        assert(d * d < s * s);
        assert(-s < d < s) by (nonlinear_arith)
            requires
                d * d < s * s,
                s > 0,
        ;
        assert(ba.min@[k] == a.position@[k] - a.size);
        assert(ba.max@[k] == a.position@[k] + a.size);
        assert(bb.min@[k] == b.position@[k] - b.size);
        assert(bb.max@[k] == b.position@[k] + b.size);
    }
}

/// The confirmed collision list is exactly the collision relation of the
/// spheres: every listed pair is a distinct colliding pair, and every
/// distinct colliding pair is listed (in one order or the other).
pub open spec fn collision_pairs_exact(
    r: Seq<(usize, usize)>,
    colliders: Seq<Collider>,
    dim: nat,
) -> bool {
    &&& forall|k: int|
        0 <= k < r.len() ==> (#[trigger] r[k]).0 < colliders.len() && r[k].1 < colliders.len()
            && r[k].0 != r[k].1 && colliders[r[k].0 as int].spec_is_collision(
            colliders[r[k].1 as int],
            dim,
        )
    &&& forall|i: usize, j: usize|
        #![trigger colliders[i as int], colliders[j as int]]
        i < colliders.len() && j < colliders.len() && i != j && colliders[
            i as int
        ].spec_is_collision(colliders[j as int], dim) ==> reports(r, i, j)
}

/// Every collider of the list is well-formed for dimension `dim`.
pub open spec fn colliders_wf(colliders: Seq<Collider>, dim: nat) -> bool {
    forall|i: int| 0 <= i < colliders.len() ==> (#[trigger] colliders[i]).wf(dim)
}

/// One step's collision detection: the broad phase culls candidate pairs by
/// bounding box, the exact sphere test confirms each candidate, and the
/// result is exactly the set of colliding pairs.
pub fn find_collisions(colliders: &Vec<Collider>, dim: usize) -> (r: Vec<(usize, usize)>)
    requires
        1 <= dim,
        colliders_wf(colliders@, dim as nat),
    ensures
        collision_pairs_exact(r@, colliders@, dim as nat),
{
    let mut boxes: Vec<BoundingBox> = Vec::new();
    let mut i: usize = 0;
    while i < colliders.len()
        invariant
            i <= colliders@.len(),
            colliders_wf(colliders@, dim as nat),
            boxes@.len() == i,
            boxes_wf(boxes@, dim as nat),
            forall|w: int, k: int|
                #![trigger boxes@[w].min@[k]]
                #![trigger boxes@[w].max@[k]]
                0 <= w < i && 0 <= k < dim ==> boxes@[w].min@[k] == colliders@[w].position@[k]
                    - colliders@[w].size && boxes@[w].max@[k] == colliders@[w].position@[k]
                    + colliders@[w].size,
        decreases colliders@.len() - i,
    {
        proof {
            assert(colliders@[i as int].wf(dim as nat));
        }
        let bb = colliders[i].get_bounding_box();
        let ghost gbb = bb;
        boxes.push(bb);
        i = i + 1;
        proof {
            assert(boxes@[i as int - 1] == gbb);
            assert(colliders@[i as int - 1].position@.len() == dim);
            assert forall|w: int, k: int|
                #![trigger boxes@[w].min@[k]]
                #![trigger boxes@[w].max@[k]]
                0 <= w < i && 0 <= k < dim implies boxes@[w].min@[k] == colliders@[w].position@[k]
                - colliders@[w].size && boxes@[w].max@[k] == colliders@[w].position@[k]
                + colliders@[w].size by {
                if w == i - 1 {
                    assert(boxes@[w] == gbb);
                    assert(gbb.min@[k] == colliders@[w].position@[k] - colliders@[w].size);
                    assert(gbb.max@[k] == colliders@[w].position@[k] + colliders@[w].size);
                }
            }
        }
    }
    let candidates = possible_collisions(&boxes, dim);
    let mut out: Vec<(usize, usize)> = Vec::new();
    let mut t: usize = 0;
    while t < candidates.len()
        invariant
            t <= candidates@.len(),
            colliders_wf(colliders@, dim as nat),
            boxes@.len() == colliders@.len(),
            candidate_pairs_exact(candidates@, boxes@, dim as nat),
            forall|k: int|
                0 <= k < out@.len() ==> (#[trigger] out@[k]).0 < colliders@.len() && out@[k].1
                    < colliders@.len() && out@[k].0 != out@[k].1 && colliders@[out@[
                    k
                ].0 as int].spec_is_collision(colliders@[out@[k].1 as int], dim as nat),
            forall|k: int|
                0 <= k < t && colliders@[(#[trigger] candidates@[k]).0 as int].spec_is_collision(
                    colliders@[candidates@[k].1 as int],
                    dim as nat,
                ) ==> reports(out@, candidates@[k].0, candidates@[k].1),
        decreases candidates@.len() - t,
    {
        let (ci, cj) = candidates[t];
        let ghost prev = out@;
        proof {
            assert(colliders@[ci as int].wf(dim as nat));
            assert(colliders@[cj as int].wf(dim as nat));
        }
        if colliders[ci].is_collision(&colliders[cj]) {
            out.push((ci, cj));
        }
        t = t + 1;
        proof {
            assert forall|k: int|
                0 <= k < t && colliders@[(#[trigger] candidates@[k]).0 as int].spec_is_collision(
                    colliders@[candidates@[k].1 as int],
                    dim as nat,
                ) implies reports(out@, candidates@[k].0, candidates@[k].1) by {
                if k < t - 1 {
                    lemma_reports_extended(prev, out@, candidates@[k].0, candidates@[k].1);
                } else {
                    assert(out@[out@.len() - 1] == (ci, cj));
                }
            }
        }
    }
    proof {
        assert forall|i2: usize, j2: usize|
            #![trigger colliders@[i2 as int], colliders@[j2 as int]]
            i2 < colliders@.len() && j2 < colliders@.len() && i2 != j2 && colliders@[
                i2 as int
            ].spec_is_collision(colliders@[j2 as int], dim as nat) implies reports(
            out@,
            i2,
            j2,
        ) by {
            lemma_collision_boxes_overlap(
                colliders@[i2 as int],
                colliders@[j2 as int],
                boxes@[i2 as int],
                boxes@[j2 as int],
                dim as nat,
            );
            assert(reports(candidates@, i2, j2));
            let k = choose|k: int|
                0 <= k < candidates@.len() && ((#[trigger] candidates@[k]).0 == i2
                    && candidates@[k].1 == j2 || candidates@[k].0 == j2 && candidates@[k].1
                    == i2);
            if candidates@[k].0 == j2 && candidates@[k].1 == i2 {
                lemma_collision_sym(colliders@[i2 as int], colliders@[j2 as int], dim as nat);
            }
            assert(reports(out@, candidates@[k].0, candidates@[k].1));
        }
    }
    out
}

/// The broad phase is order-independent: when one box list is a permutation
/// of another, the two candidate sets list exactly the same unordered pairs
/// of boxes, with indices carried through the permutation.
pub proof fn lemma_order_independence(
    r1: Seq<(usize, usize)>,
    r2: Seq<(usize, usize)>,
    boxes1: Seq<BoundingBox>,
    boxes2: Seq<BoundingBox>,
    perm: Seq<usize>,
    dim: nat,
)
    requires
        candidate_pairs_exact(r1, boxes1, dim),
        candidate_pairs_exact(r2, boxes2, dim),
        boxes1.len() == boxes2.len(),
        perm.len() == boxes2.len(),
        forall|i: int| 0 <= i < perm.len() ==> #[trigger] perm[i] < boxes1.len(),
        perm.no_duplicates(),
        forall|i: int| 0 <= i < boxes2.len() ==> boxes2[i] == boxes1[#[trigger] perm[i] as int],
    ensures
        forall|i: usize, j: usize|
            #![trigger perm[i as int], perm[j as int]]
            i < boxes2.len() && j < boxes2.len() && i != j ==> (reports(r2, i, j) <==> reports(
                r1,
                perm[i as int],
                perm[j as int],
            )),
{
    assert forall|i: usize, j: usize|
        #![trigger perm[i as int], perm[j as int]]
        i < boxes2.len() && j < boxes2.len() && i != j implies (reports(r2, i, j) <==> reports(
        r1,
        perm[i as int],
        perm[j as int],
    )) by {
        let pi = perm[i as int];
        let pj = perm[j as int];
        assert(pi != pj);
        if reports(r2, i, j) {
            let k = choose|k: int|
                0 <= k < r2.len() && ((#[trigger] r2[k]).0 == i && r2[k].1 == j || r2[k].0 == j
                    && r2[k].1 == i);
            if r2[k].0 == j && r2[k].1 == i {
                lemma_overlaps_sym(boxes2[j as int], boxes2[i as int], dim);
            }
            assert(boxes2[i as int].spec_overlaps(boxes2[j as int], dim));
            assert(boxes1[pi as int].spec_overlaps(boxes1[pj as int], dim));
            assert(reports(r1, pi, pj));
        }
        if reports(r1, pi, pj) {
            let k = choose|k: int|
                0 <= k < r1.len() && ((#[trigger] r1[k]).0 == pi && r1[k].1 == pj || r1[k].0 == pj
                    && r1[k].1 == pi);
            if r1[k].0 == pj && r1[k].1 == pi {
                lemma_overlaps_sym(boxes1[pj as int], boxes1[pi as int], dim);
            }
            assert(boxes1[pi as int].spec_overlaps(boxes1[pj as int], dim));
            assert(boxes2[i as int].spec_overlaps(boxes2[j as int], dim));
            assert(reports(r2, i, j));
        }
    }
}

} // verus!
