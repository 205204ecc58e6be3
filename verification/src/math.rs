//! Point-in-polygon testing and signed-area computation over 2D point
//! sequences, together with the laws they obey.

use vstd::prelude::*;

verus! {

/// Largest magnitude a projected coordinate may take (2^29 microunits).
/// Every polygon handed to the geometry routines stays within this bound,
/// which keeps all intermediate products inside `i128`.
pub const COORD_LIMIT: i64 = 536_870_912;

/// A point on the 2D drawing surface, in microunits.
#[derive(Clone, Copy, PartialEq, Eq, Structural, Debug)]
pub struct Point {
    pub x: i64,
    pub y: i64,
}

/// The point has both coordinates within `COORD_LIMIT`.
pub open spec fn in_coord_range(p: Point) -> bool {
    &&& -COORD_LIMIT <= p.x <= COORD_LIMIT
    &&& -COORD_LIMIT <= p.y <= COORD_LIMIT
}

/// Every vertex of the ring is within `COORD_LIMIT`.
pub open spec fn ring_in_range(s: Seq<Point>) -> bool {
    forall|i: int| 0 <= i < s.len() ==> in_coord_range(#[trigger] s[i])
}

/// Cross product term of the shoelace sum for the directed edge `a -> b`.
pub open spec fn cross(a: Point, b: Point) -> int {
    a.x * b.y - a.y * b.x
}

/// Index of the vertex after `i`, wrapping past the end of the ring.
pub open spec fn next_index(s: Seq<Point>, i: int) -> int {
    if i == s.len() - 1 {
        0
    } else {
        i + 1
    }
}

/// Index of the vertex before `i`, wrapping below the start of the ring.
pub open spec fn prev_index(s: Seq<Point>, i: int) -> int {
    if i == 0 {
        s.len() - 1
    } else {
        i - 1
    }
}

/// Sum of the first `k` shoelace terms of the ring.
pub open spec fn shoelace_partial(s: Seq<Point>, k: int) -> int
    decreases k,
{
    if k <= 0 {
        0
    } else {
        shoelace_partial(s, k - 1) + cross(s[k - 1], s[next_index(s, k - 1)])
    }
}

/// Twice the signed area of the ring: the full shoelace sum.
pub open spec fn signed_area2(s: Seq<Point>) -> int {
    shoelace_partial(s, s.len() as int)
}

/// Twice the absolute area of the ring; never negative.
pub open spec fn area2(s: Seq<Point>) -> int {
    if signed_area2(s) < 0 {
        -signed_area2(s)
    } else {
        signed_area2(s)
    }
}

/// The edge ending at vertex `i` (drawn from its predecessor) crosses the
/// horizontal line through `p`.
pub open spec fn edge_crosses(s: Seq<Point>, p: Point, i: int) -> bool {
    (s[i].y > p.y) != (s[prev_index(s, i)].y > p.y)
}

/// The intersection of the edge ending at vertex `i` with the horizontal
/// line through `p` lies strictly to the right of `p`. This is the exact
/// form of `p.x < a.x + (b.x - a.x) * (p.y - a.y) / (b.y - a.y)`, with the
/// division cleared against the sign of `b.y - a.y`.
pub open spec fn crossing_right_of(s: Seq<Point>, p: Point, i: int) -> bool {
    let a = s[i];
    let b = s[prev_index(s, i)];
    if b.y > a.y {
        (p.x - a.x) * (b.y - a.y) < (b.x - a.x) * (p.y - a.y)
    } else {
        (p.x - a.x) * (b.y - a.y) > (b.x - a.x) * (p.y - a.y)
    }
}

/// The edge ending at vertex `i` toggles containment of `p`.
pub open spec fn toggles(s: Seq<Point>, p: Point, i: int) -> bool {
    edge_crosses(s, p, i) && crossing_right_of(s, p, i)
}

/// Ray-cast state after the first `k` edges: the parity of the toggles.
pub open spec fn contains_partial(s: Seq<Point>, p: Point, k: int) -> bool
    decreases k,
{
    if k <= 0 {
        false
    } else {
        contains_partial(s, p, k - 1) != toggles(s, p, k - 1)
    }
}

/// Whether the ring contains `p` under the ray-casting rule. Points exactly
/// on an edge have unspecified containment.
pub open spec fn spec_polygon_contains(p: Point, s: Seq<Point>) -> bool {
    contains_partial(s, p, s.len() as int)
}

/// Ray-casting point-in-polygon test: walk every edge of the ring and toggle
/// containment when the edge crosses the horizontal line through `point` with
/// its intersection strictly to the right of `point`.
pub fn polygon_contains(point: Point, polygon: &Vec<Point>) -> (r: bool)
    requires
        ring_in_range(polygon@),
    ensures
        r == spec_polygon_contains(point, polygon@),
{
    let n = polygon.len();
    if n == 0 {
        return false;
    }
    let mut i: usize = 0;
    let mut j: usize = n - 1;
    let mut inside = false;
    while i < n
        invariant
            ring_in_range(polygon@),
            n == polygon@.len(),
            0 < n,
            i <= n,
            j as int == prev_index(polygon@, i as int) || i == n,
            inside == contains_partial(polygon@, point, i as int),
        decreases n - i,
    {
        let a = *polygon.get(i).unwrap();
        let b = *polygon.get(j).unwrap();
        if (a.y > point.y) != (b.y > point.y) {
            let pdx: i128 = point.x as i128 - a.x as i128;
            let edy: i128 = b.y as i128 - a.y as i128;
            let edx: i128 = b.x as i128 - a.x as i128;
            let pdy: i128 = point.y as i128 - a.y as i128;
            proof {
                lemma_mul_bound(pdx as int, edy as int, 0x8000_0000_2000_0000, 0x4000_0000);
                lemma_mul_bound(edx as int, pdy as int, 0x4000_0000, 0x8000_0000_2000_0000);
            }
            let lhs: i128 = pdx * edy;
            let rhs: i128 = edx * pdy;
            let right = if b.y > a.y {
                lhs < rhs
            } else {
                lhs > rhs
            };
            if right {
                inside = !inside;
            }
        }
        j = i;
        i = i + 1;
    }
    inside
}

/// Largest magnitude of one shoelace term for in-range vertices (2 * 2^58).
pub const CROSS_BOUND: i128 = 576_460_752_303_423_488;

/// Twice the absolute shoelace area of the ring. Carrying the doubled value
/// keeps the result an integer; it is zero for rings of at most two points.
pub fn polygon_area2(polygon: &Vec<Point>) -> (r: u128)
    requires
        ring_in_range(polygon@),
    ensures
        r == area2(polygon@),
{
    let n = polygon.len();
    let mut sum: i128 = 0;
    let mut i: usize = 0;
    while i < n
        invariant
            ring_in_range(polygon@),
            n == polygon@.len(),
            i <= n,
            sum == shoelace_partial(polygon@, i as int),
            -(i as i128) * CROSS_BOUND <= sum <= (i as i128) * CROSS_BOUND,
        decreases n - i,
    {
        let a = *polygon.get(i).unwrap();
        let b = if i == n - 1 {
            *polygon.get(0).unwrap()
        } else {
            *polygon.get(i + 1).unwrap()
        };
        proof {
            lemma_mul_bound(a.x as int, b.y as int, COORD_LIMIT as int, COORD_LIMIT as int);
            lemma_mul_bound(a.y as int, b.x as int, COORD_LIMIT as int, COORD_LIMIT as int);
        }
        let term: i128 = (a.x as i128) * (b.y as i128) - (a.y as i128) * (b.x as i128);
        sum = sum + term;
        i = i + 1;
    }
    if sum < 0 {
        (-sum) as u128
    } else {
        sum as u128
    }
}

/// Exact area with the doubling removed, rounding the half microunit down.
pub fn polygon_area(polygon: &Vec<Point>) -> (r: u128)
    requires
        ring_in_range(polygon@),
    ensures
        r == area2(polygon@) / 2,
{
    let doubled = polygon_area2(polygon);
    doubled / 2
}

/// The shoelace term of the edge `a -> b` is the negation of the term of the
/// reversed edge `b -> a`.
proof fn lemma_cross_antisym(a: Point, b: Point)
    ensures
        cross(a, b) == -cross(b, a),
{
    assert(a.x * b.y - a.y * b.x == -(b.x * a.y - b.y * a.x)) by (nonlinear_arith);
}

/// A ring of at most two points has area zero.
pub proof fn lemma_area2_degenerate(s: Seq<Point>)
    requires
        s.len() <= 2,
    ensures
        area2(s) == 0,
{
    assert(shoelace_partial(s, 0) == 0);
    if s.len() == 2 {
        assert(next_index(s, 0) == 1);
        assert(shoelace_partial(s, 1) == cross(s[0], s[1]));
        assert(signed_area2(s) == cross(s[0], s[1]) + cross(s[1], s[0]));
        lemma_cross_antisym(s[0], s[1]);
    } else if s.len() == 1 {
        assert(shoelace_partial(s, 1) == cross(s[0], s[0]));
        lemma_cross_antisym(s[0], s[0]);
    }
}

/// The ring rotated left by one position: the first vertex moves to the end.
spec fn rot1(s: Seq<Point>) -> Seq<Point> {
    s.subrange(1, s.len() as int) + s.subrange(0, 1)
}

/// Every partial shoelace sum of the rotated ring matches the corresponding
/// sum of the original, shifted by one term.
proof fn lemma_shoelace_rot1_partial(s: Seq<Point>, k: int)
    requires
        2 <= s.len(),
        0 <= k <= s.len() - 1,
    ensures
        shoelace_partial(rot1(s), k) == shoelace_partial(s, k + 1) - cross(s[0], s[1]),
    decreases k,
{
    let t = rot1(s);
    let n = s.len() as int;
    if k == 0 {
        assert(shoelace_partial(t, 0) == 0);
        assert(shoelace_partial(s, 0) == 0);
        assert(shoelace_partial(s, 1) == cross(s[0], s[next_index(s, 0)]));
        assert(next_index(s, 0) == 1);
    } else {
        lemma_shoelace_rot1_partial(s, k - 1);
        let i = k - 1;
        assert(t.len() == n);
        if i < n - 2 {
            assert(t[i] == s[i + 1]);
            assert(t[i + 1] == s[i + 2]);
            assert(cross(t[i], t[next_index(t, i)]) == cross(s[i + 1], s[next_index(s, i + 1)]));
        } else {
            assert(i == n - 2);
            assert(t[n - 2] == s[n - 1]);
            assert(t[n - 1] == s[0]);
            assert(cross(t[i], t[next_index(t, i)]) == cross(s[n - 1], s[next_index(s, n - 1)]));
        }
    }
}

/// Rotating the ring left by one position preserves the signed area.
proof fn lemma_signed_area2_rot1(s: Seq<Point>)
    requires
        1 <= s.len(),
    ensures
        signed_area2(rot1(s)) == signed_area2(s),
{
    let t = rot1(s);
    let n = s.len() as int;
    if n == 1 {
        assert(t =~= s);
    } else {
        lemma_shoelace_rot1_partial(s, n - 1);
        assert(t[n - 1] == s[0]);
        assert(t[0] == s[1]);
        assert(signed_area2(t) == shoelace_partial(t, n - 1) + cross(t[n - 1], t[next_index(t, n - 1)]));
    }
}

/// The ring rotated left by `k` positions.
pub open spec fn rotated(s: Seq<Point>, k: int) -> Seq<Point> {
    s.subrange(k, s.len() as int) + s.subrange(0, k)
}

/// Rotating the ring preserves the signed area.
proof fn lemma_signed_area2_rotation(s: Seq<Point>, k: int)
    requires
        0 <= k <= s.len(),
    ensures
        signed_area2(rotated(s, k)) == signed_area2(s),
    decreases k,
{
    if k == 0 {
        assert(rotated(s, 0) =~= s);
    } else {
        lemma_signed_area2_rotation(s, k - 1);
        lemma_signed_area2_rot1(rotated(s, k - 1));
        assert(rot1(rotated(s, k - 1)) =~= rotated(s, k));
    }
}

/// The area of a ring is invariant under cyclic rotation of its vertex list.
pub proof fn lemma_area2_rotation(s: Seq<Point>, k: int)
    requires
        0 <= k <= s.len(),
    ensures
        area2(rotated(s, k)) == area2(s),
{
    lemma_signed_area2_rotation(s, k);
}

/// Every partial shoelace sum of the reversed ring is the negated sum of a
/// matching stretch of the original's terms.
proof fn lemma_shoelace_reverse_partial(s: Seq<Point>, k: int)
    requires
        1 <= s.len(),
        0 <= k <= s.len() - 1,
    ensures
        shoelace_partial(s.reverse(), k) == -(shoelace_partial(s, s.len() - 1) - shoelace_partial(
            s,
            s.len() - 1 - k,
        )),
    decreases k,
{
    let t = s.reverse();
    let n = s.len() as int;
    if k == 0 {
    } else {
        lemma_shoelace_reverse_partial(s, k - 1);
        let i = k - 1;
        assert(t[i] == s[n - 1 - i]);
        assert(t[i + 1] == s[n - 2 - i]);
        assert(next_index(t, i) == i + 1);
        lemma_cross_antisym(s[n - 2 - i], s[n - 1 - i]);
        assert(next_index(s, n - 2 - i) == n - 1 - i);
        assert(shoelace_partial(s, n - 1 - i) == shoelace_partial(s, n - 2 - i) + cross(
            s[n - 2 - i],
            s[next_index(s, n - 2 - i)],
        ));
    }
}

/// Reversing the winding order of the ring negates the signed area.
proof fn lemma_signed_area2_reverse(s: Seq<Point>)
    ensures
        signed_area2(s.reverse()) == -signed_area2(s),
{
    let t = s.reverse();
    let n = s.len() as int;
    if n == 0 {
        assert(t =~= s);
    } else {
        lemma_shoelace_reverse_partial(s, n - 1);
        assert(t[n - 1] == s[0]);
        assert(t[0] == s[n - 1]);
        lemma_cross_antisym(s[n - 1], s[0]);
        assert(next_index(s, n - 1) == 0);
        assert(signed_area2(t) == shoelace_partial(t, n - 1) + cross(t[n - 1], t[next_index(t, n - 1)]));
        assert(signed_area2(s) == shoelace_partial(s, n - 1) + cross(s[n - 1], s[next_index(s, n - 1)]));
    }
}

/// The area of a ring is invariant under reversal of its winding order.
pub proof fn lemma_area2_reverse(s: Seq<Point>)
    ensures
        area2(s.reverse()) == area2(s),
{
    lemma_signed_area2_reverse(s);
}

/// Axis-aligned bounding rectangle of one projected ring, in microunits.
/// An empty ring gets the empty box, which contains no point.
#[derive(Clone, Copy, PartialEq, Eq, Structural, Debug)]
pub struct Bounds {
    pub min_x: i64,
    pub min_y: i64,
    pub max_x: i64,
    pub max_y: i64,
}

/// Whether `p` lies in the closed box `b`.
pub open spec fn spec_bounds_contains(b: Bounds, p: Point) -> bool {
    &&& b.min_x <= p.x <= b.max_x
    &&& b.min_y <= p.y <= b.max_y
}

impl Bounds {
    /// Whether the point lies in the closed box.
    pub fn contains(&self, p: Point) -> (r: bool)
        ensures
            r == spec_bounds_contains(*self, p),
    {
        self.min_x <= p.x && p.x <= self.max_x && self.min_y <= p.y && p.y <= self.max_y
    }
}

/// Smallest x coordinate among the first `k` vertices.
pub open spec fn min_x_upto(s: Seq<Point>, k: int) -> int
    decreases k,
{
    if k <= 1 {
        s[0].x as int
    } else if s[k - 1].x < min_x_upto(s, k - 1) {
        s[k - 1].x as int
    } else {
        min_x_upto(s, k - 1)
    }
}

/// Largest x coordinate among the first `k` vertices.
pub open spec fn max_x_upto(s: Seq<Point>, k: int) -> int
    decreases k,
{
    if k <= 1 {
        s[0].x as int
    } else if s[k - 1].x > max_x_upto(s, k - 1) {
        s[k - 1].x as int
    } else {
        max_x_upto(s, k - 1)
    }
}

/// Smallest y coordinate among the first `k` vertices.
pub open spec fn min_y_upto(s: Seq<Point>, k: int) -> int
    decreases k,
{
    if k <= 1 {
        s[0].y as int
    } else if s[k - 1].y < min_y_upto(s, k - 1) {
        s[k - 1].y as int
    } else {
        min_y_upto(s, k - 1)
    }
}

/// Largest y coordinate among the first `k` vertices.
pub open spec fn max_y_upto(s: Seq<Point>, k: int) -> int
    decreases k,
{
    if k <= 1 {
        s[0].y as int
    } else if s[k - 1].y > max_y_upto(s, k - 1) {
        s[k - 1].y as int
    } else {
        max_y_upto(s, k - 1)
    }
}

/// `b` is exactly the bounding box of the ring `s`.
pub open spec fn is_ring_bounds(b: Bounds, s: Seq<Point>) -> bool {
    if s.len() == 0 {
        b == (Bounds { min_x: 0i64, min_y: 0i64, max_x: -1i64, max_y: -1i64 })
    } else {
        &&& b.min_x == min_x_upto(s, s.len() as int)
        &&& b.max_x == max_x_upto(s, s.len() as int)
        &&& b.min_y == min_y_upto(s, s.len() as int)
        &&& b.max_y == max_y_upto(s, s.len() as int)
    }
}

/// The running extrema really enclose every vertex seen so far.
proof fn lemma_extrema_enclose(s: Seq<Point>, k: int)
    requires
        1 <= k <= s.len(),
    ensures
        forall|i: int|
            0 <= i < k ==> {
                &&& min_x_upto(s, k) <= #[trigger] s[i].x <= max_x_upto(s, k)
                &&& min_y_upto(s, k) <= s[i].y <= max_y_upto(s, k)
            },
    decreases k,
{
    if k > 1 {
        lemma_extrema_enclose(s, k - 1);
    }
}

/// Bounding box of one ring, by a single pass over its vertices.
pub fn ring_bounds(polygon: &Vec<Point>) -> (b: Bounds)
    ensures
        is_ring_bounds(b, polygon@),
{
    let n = polygon.len();
    if n == 0 {
        return Bounds { min_x: 0, min_y: 0, max_x: -1, max_y: -1 };
    }
    let first = *polygon.get(0).unwrap();
    let mut b = Bounds { min_x: first.x, min_y: first.y, max_x: first.x, max_y: first.y };
    let mut i: usize = 1;
    while i < n
        invariant
            n == polygon@.len(),
            1 <= i <= n,
            b.min_x == min_x_upto(polygon@, i as int),
            b.max_x == max_x_upto(polygon@, i as int),
            b.min_y == min_y_upto(polygon@, i as int),
            b.max_y == max_y_upto(polygon@, i as int),
        decreases n - i,
    {
        let v = *polygon.get(i).unwrap();
        if v.x < b.min_x {
            b.min_x = v.x;
        }
        if v.x > b.max_x {
            b.max_x = v.x;
        }
        if v.y < b.min_y {
            b.min_y = v.y;
        }
        if v.y > b.max_y {
            b.max_y = v.y;
        }
        i = i + 1;
    }
    b
}

/// Parity of the edge crossings among the first `k` edges, with no regard to
/// which side the crossing falls on.
spec fn xor_crossings_upto(s: Seq<Point>, p: Point, k: int) -> bool
    decreases k,
{
    if k <= 0 {
        false
    } else {
        xor_crossings_upto(s, p, k - 1) != edge_crosses(s, p, k - 1)
    }
}

/// The crossing parity over a prefix reduces to comparing its last vertex
/// against the ring's last vertex.
proof fn lemma_xor_crossings_prefix(s: Seq<Point>, p: Point, k: int)
    requires
        1 <= k <= s.len(),
    ensures
        xor_crossings_upto(s, p, k) == ((s[k - 1].y > p.y) != (s[s.len() - 1].y > p.y)),
    decreases k,
{
    if k == 1 {
        assert(xor_crossings_upto(s, p, 0) == false);
        assert(prev_index(s, 0) == s.len() - 1);
    } else {
        lemma_xor_crossings_prefix(s, p, k - 1);
        assert(prev_index(s, k - 1) == k - 2);
    }
}

/// Walking the whole ring, the horizontal line through `p` is crossed an
/// even number of times.
proof fn lemma_crossings_even(s: Seq<Point>, p: Point)
    requires
        1 <= s.len(),
    ensures
        !xor_crossings_upto(s, p, s.len() as int),
{
    lemma_xor_crossings_prefix(s, p, s.len() as int);
}

/// If every crossing among the first `k` edges falls to the right of `p`,
/// containment is exactly the crossing parity.
proof fn lemma_contains_eq_xor(s: Seq<Point>, p: Point, k: int)
    requires
        0 <= k <= s.len(),
        forall|i: int|
            0 <= i < k ==> (edge_crosses(s, p, i) ==> crossing_right_of(s, p, i)),
    ensures
        contains_partial(s, p, k) == xor_crossings_upto(s, p, k),
    decreases k,
{
    if k > 0 {
        lemma_contains_eq_xor(s, p, k - 1);
    }
}

/// If no edge among the first `k` toggles, `p` is not contained.
proof fn lemma_no_toggles_not_contained(s: Seq<Point>, p: Point, k: int)
    requires
        0 <= k <= s.len(),
        forall|i: int| 0 <= i < k ==> !toggles(s, p, i),
    ensures
        !contains_partial(s, p, k),
    decreases k,
{
    if k > 0 {
        lemma_no_toggles_not_contained(s, p, k - 1);
    }
}

/// A toggling edge always has a vertex strictly to the right of `p`: the
/// crossing point is a weighted mix of the edge's endpoints.
proof fn lemma_toggle_left_of_endpoint(s: Seq<Point>, p: Point, i: int)
    requires
        0 <= i < s.len(),
        toggles(s, p, i),
    ensures
        p.x < s[i].x || p.x < s[prev_index(s, i)].x,
{
    let a = s[i];
    let b = s[prev_index(s, i)];
    if b.y > a.y {
        assert(!(a.y > p.y) && (b.y > p.y));
        assert(p.x < a.x || p.x < b.x) by (nonlinear_arith)
            requires
                b.y > a.y,
                !(a.y > p.y),
                b.y > p.y,
                (p.x - a.x) * (b.y - a.y) < (b.x - a.x) * (p.y - a.y),
        ;
    } else {
        assert((a.y > p.y) && !(b.y > p.y));
        assert(b.y < a.y);
        assert(p.x < a.x || p.x < b.x) by (nonlinear_arith)
            requires
                b.y < a.y,
                a.y > p.y,
                !(b.y > p.y),
                (p.x - a.x) * (b.y - a.y) > (b.x - a.x) * (p.y - a.y),
        ;
    }
}

/// A crossing edge both of whose endpoints lie strictly to the right of `p`
/// crosses to the right of `p`.
proof fn lemma_left_point_crossing_right(s: Seq<Point>, p: Point, i: int)
    requires
        0 <= i < s.len(),
        edge_crosses(s, p, i),
        p.x < s[i].x,
        p.x < s[prev_index(s, i)].x,
    ensures
        crossing_right_of(s, p, i),
{
    let a = s[i];
    let b = s[prev_index(s, i)];
    if b.y > a.y {
        assert(!(a.y > p.y) && (b.y > p.y));
        assert((p.x - a.x) * (b.y - a.y) < (b.x - a.x) * (p.y - a.y)) by (nonlinear_arith)
            requires
                b.y > a.y,
                !(a.y > p.y),
                b.y > p.y,
                p.x < a.x,
                p.x < b.x,
        ;
    } else {
        assert((a.y > p.y) && !(b.y > p.y));
        assert(b.y < a.y);
        assert((p.x - a.x) * (b.y - a.y) > (b.x - a.x) * (p.y - a.y)) by (nonlinear_arith)
            requires
                b.y < a.y,
                a.y > p.y,
                !(b.y > p.y),
                p.x < a.x,
                p.x < b.x,
        ;
    }
}

/// An axis-aligned rectangle as a four-vertex ring, wound
/// counterclockwise from its south-west corner.
pub open spec fn rect_ring(x0: int, y0: int, x1: int, y1: int) -> Seq<Point> {
    seq![
        Point { x: x0 as i64, y: y0 as i64 },
        Point { x: x1 as i64, y: y0 as i64 },
        Point { x: x1 as i64, y: y1 as i64 },
        Point { x: x0 as i64, y: y1 as i64 },
    ]
}

/// Every point strictly inside an axis-aligned rectangle ring is contained
/// in it: the special case of a convex region where containment of the
/// whole interior, its centroid included, can be pinned exactly.
pub proof fn lemma_rect_ring_contains_interior(x0: i64, y0: i64, x1: i64, y1: i64, p: Point)
    requires
        x0 < p.x < x1,
        y0 <= p.y < y1,
    ensures
        spec_polygon_contains(p, rect_ring(x0 as int, y0 as int, x1 as int, y1 as int)),
{
    let s = rect_ring(x0 as int, y0 as int, x1 as int, y1 as int);
    assert(s.len() == 4);
    assert(s[0] == Point { x: x0, y: y0 });
    assert(s[1] == Point { x: x1, y: y0 });
    assert(s[2] == Point { x: x1, y: y1 });
    assert(s[3] == Point { x: x0, y: y1 });
    assert(prev_index(s, 0) == 3);
    assert(prev_index(s, 1) == 0);
    assert(prev_index(s, 2) == 1);
    assert(prev_index(s, 3) == 2);
    // The west edge crosses the horizontal line through p, but meets it to
    // the left of p.
    assert(edge_crosses(s, p, 0));
    assert((p.x - x0) * (y1 - y0) >= (x0 - x0) * (p.y - y0)) by (nonlinear_arith)
        requires
            x0 < p.x,
            y0 <= p.y < y1,
    ;
    assert(!crossing_right_of(s, p, 0));
    // The south edge is horizontal and crosses nothing.
    assert(!edge_crosses(s, p, 1));
    // The east edge crosses, and meets the line to the right of p.
    assert(edge_crosses(s, p, 2));
    assert((p.x - x1) * (y0 - y1) > (x1 - x1) * (p.y - y1)) by (nonlinear_arith)
        requires
            p.x < x1,
            y0 <= p.y < y1,
    ;
    assert(crossing_right_of(s, p, 2));
    // The north edge is horizontal and crosses nothing.
    assert(!edge_crosses(s, p, 3));
    assert(contains_partial(s, p, 0) == false);
    assert(contains_partial(s, p, 1) == false);
    assert(contains_partial(s, p, 2) == false);
    assert(contains_partial(s, p, 3) == true);
    assert(contains_partial(s, p, 4) == true);
}

/// The bounding box is a necessary condition for containment: a point
/// outside the box of a ring is never contained in the ring, so testing the
/// box first is a pure short-circuit and cannot change the result.
pub proof fn lemma_bounds_prefilter(s: Seq<Point>, b: Bounds, p: Point)
    requires
        is_ring_bounds(b, s),
        !spec_bounds_contains(b, p),
    ensures
        !spec_polygon_contains(p, s),
{
    let n = s.len() as int;
    if n == 0 {
        assert(!contains_partial(s, p, 0));
    } else {
        lemma_extrema_enclose(s, n);
        if p.y > b.max_y || p.y < b.min_y {
            assert forall|i: int| 0 <= i < n implies !toggles(s, p, i) by {
                assert(0 <= prev_index(s, i) < n);
            }
            lemma_no_toggles_not_contained(s, p, n);
        } else if p.x > b.max_x {
            assert forall|i: int| 0 <= i < n implies !toggles(s, p, i) by {
                if toggles(s, p, i) {
                    lemma_toggle_left_of_endpoint(s, p, i);
                    assert(0 <= prev_index(s, i) < n);
                }
            }
            lemma_no_toggles_not_contained(s, p, n);
        } else {
            assert(p.x < b.min_x);
            assert forall|i: int|
                0 <= i < n && edge_crosses(s, p, i) implies crossing_right_of(s, p, i) by {
                assert(0 <= prev_index(s, i) < n);
                lemma_left_point_crossing_right(s, p, i);
            }
            lemma_contains_eq_xor(s, p, n);
            lemma_crossings_even(s, p);
        }
    }
}

/// Each partial shoelace sum of an in-range ring grows by at most
/// `CROSS_BOUND` per term.
pub proof fn lemma_shoelace_bound(s: Seq<Point>, k: int)
    requires
        ring_in_range(s),
        0 <= k <= s.len(),
    ensures
        -(k * (CROSS_BOUND as int)) <= shoelace_partial(s, k) <= k * (CROSS_BOUND as int),
    decreases k,
{
    if k > 0 {
        lemma_shoelace_bound(s, k - 1);
        let a = s[k - 1];
        let b = s[next_index(s, k - 1)];
        lemma_mul_bound(a.x as int, b.y as int, COORD_LIMIT as int, COORD_LIMIT as int);
        lemma_mul_bound(a.y as int, b.x as int, COORD_LIMIT as int, COORD_LIMIT as int);
    }
}

/// The doubled area of an in-range ring is bounded by its vertex count
/// times `CROSS_BOUND`.
pub proof fn lemma_area2_bound(s: Seq<Point>)
    requires
        ring_in_range(s),
    ensures
        0 <= area2(s) <= s.len() * (CROSS_BOUND as int),
{
    lemma_shoelace_bound(s, s.len() as int);
}

/// A product of two factors bounded in magnitude is bounded by the product
/// of the bounds.
pub proof fn lemma_mul_bound(x: int, y: int, bx: int, by: int)
    requires
        -bx <= x <= bx,
        -by <= y <= by,
        0 <= bx,
        0 <= by,
    ensures
        -(bx * by) <= x * y <= bx * by,
{
    assert(-(bx * by) <= x * y <= bx * by) by (nonlinear_arith)
        requires
            -bx <= x <= bx,
            -by <= y <= by,
            0 <= bx,
            0 <= by,
    ;
}

} // verus!
