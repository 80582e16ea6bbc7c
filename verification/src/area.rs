//! Signed planar area of linear rings and polygons by the shoelace
//! formula (discrete Green's theorem): consecutive point pairs contribute
//! `p1.x * p2.y - p2.x * p1.y`, and the accumulated total is halved.
//! The sign of a ring's area is positive for counter-clockwise vertex
//! order and negative for clockwise order; a polygon's net area is the
//! outer ring's area minus the area of every hole ring.

use vstd::prelude::*;

verus! {

use crate::types::{LineString, Point, Polygon};

/// Largest coordinate magnitude the area routines accept; keeps every
/// intermediate shoelace product inside `i64`.
pub const MAX_COORD: i64 = 1_000_000;

/// Largest number of points (per ring, and summed over a polygon's rings)
/// the area routines accept; keeps the accumulated sums inside `i64`.
pub const MAX_POINTS: usize = 1_000_000;

/// Largest magnitude a product of two in-range coordinates can reach.
pub const MAX_PRODUCT: i64 = 1_000_000_000_000;

/// Twice the largest magnitude a single pair's shoelace contribution can
/// reach under [`MAX_COORD`].
pub const MAX_CROSS: i64 = 2_000_000_000_000;

/// Largest magnitude the shoelace sum of `k` points can reach under
/// [`MAX_COORD`]: one full pair contribution per point.
pub open spec fn sum_bound(k: int) -> int {
    2_000_000_000_000 * k
}

/// The shoelace contribution of the consecutive pair `(a, b)`.
pub open spec fn cross(a: Point, b: Point) -> int {
    a.0.x * b.0.y - b.0.x * a.0.y
}

/// The shoelace sum of a ring: the sum of `cross` over all consecutive
/// point pairs, in order. Twice the ring's signed area.
pub open spec fn shoelace_sum(s: Seq<Point>) -> int
    decreases s.len(),
{
    if s.len() < 2 {
        0
    } else {
        shoelace_sum(s.drop_last()) + cross(s[s.len() - 2], s[s.len() - 1])
    }
}

/// Halving that rounds toward zero, as integer division does at runtime.
pub open spec fn half_toward_zero(n: int) -> int {
    if n >= 0 {
        n / 2
    } else {
        -((-n) / 2)
    }
}

/// The signed area of a ring: half its shoelace sum, rounded toward zero.
pub open spec fn ring_area_spec(s: Seq<Point>) -> int {
    half_toward_zero(shoelace_sum(s))
}

/// Every coordinate of the ring has magnitude at most [`MAX_COORD`].
pub open spec fn coords_bounded(s: Seq<Point>) -> bool {
    forall|i: int|
        0 <= i < s.len() ==> -MAX_COORD <= (#[trigger] s[i]).0.x <= MAX_COORD && -MAX_COORD
            <= s[i].0.y <= MAX_COORD
}

proof fn lemma_cross_bound(a: Point, b: Point)
    requires
        -MAX_COORD <= a.0.x <= MAX_COORD,
        -MAX_COORD <= a.0.y <= MAX_COORD,
        -MAX_COORD <= b.0.x <= MAX_COORD,
        -MAX_COORD <= b.0.y <= MAX_COORD,
    ensures
        -MAX_PRODUCT <= a.0.x * b.0.y <= MAX_PRODUCT,
        -MAX_PRODUCT <= b.0.x * a.0.y <= MAX_PRODUCT,
        -MAX_CROSS <= cross(a, b) <= MAX_CROSS,
{
    assert(-MAX_PRODUCT <= a.0.x * b.0.y <= MAX_PRODUCT && -MAX_PRODUCT <= b.0.x * a.0.y
        <= MAX_PRODUCT) by (nonlinear_arith)
        requires
            -MAX_COORD <= a.0.x <= MAX_COORD,
            -MAX_COORD <= a.0.y <= MAX_COORD,
            -MAX_COORD <= b.0.x <= MAX_COORD,
            -MAX_COORD <= b.0.y <= MAX_COORD,
    ;
}

proof fn lemma_shoelace_sum_bound(s: Seq<Point>)
    requires
        coords_bounded(s),
    ensures
        -sum_bound(s.len() as int) <= shoelace_sum(s) <= sum_bound(s.len() as int),
    decreases s.len(),
{
    if s.len() < 2 {
    } else {
        assert(coords_bounded(s.drop_last()));
        lemma_shoelace_sum_bound(s.drop_last());
        lemma_cross_bound(s[s.len() - 2], s[s.len() - 1]);
    }
}

/// Signed area of a single ring by the shoelace formula. The result is
/// exact whenever the shoelace sum is even; an odd sum (a ring whose
/// true area ends in one half) is halved toward zero.
pub fn get_linestring_area(linestring: &LineString) -> (area: i64)
    requires
        coords_bounded(linestring@),
        linestring@.len() <= MAX_POINTS,
    ensures
        area == ring_area_spec(linestring@),
        linestring@.len() <= 1 ==> area == 0,
{
    let n: usize = linestring.0.len();
    if n == 0 {
        return 0;
    }
    let mut tmp: i64 = 0;
    let mut i: usize = 1;
    while i < n
        invariant
            1 <= i <= n,
            n == linestring@.len(),
            n <= MAX_POINTS,
            coords_bounded(linestring@),
            tmp == shoelace_sum(linestring@.take(i as int)),
            -sum_bound(i as int) <= tmp <= sum_bound(i as int),
        decreases n - i,
    {
        let p1 = linestring.0[i - 1];
        let p2 = linestring.0[i];
        proof {
            let s = linestring@;
            assert(p1 == s[i - 1] && p2 == s[i as int]);
            lemma_cross_bound(p1, p2);
            assert(s.take(i + 1).drop_last() =~= s.take(i as int));
            assert(shoelace_sum(s.take(i + 1)) == shoelace_sum(s.take(i as int)) + cross(p1, p2));
        }
        tmp = tmp + (p1.x() * p2.y() - p2.x() * p1.y());
        i = i + 1;
    }
    proof {
        assert(linestring@.take(n as int) =~= linestring@);
    }
    halve(tmp)
}

/// Halves a shoelace total, rounding toward zero.
fn halve(tmp: i64) -> (r: i64)
    requires
        tmp != i64::MIN,
    ensures
        r == half_toward_zero(tmp as int),
{
    if tmp >= 0 {
        tmp / 2
    } else {
        -((-tmp) / 2)
    }
}

/// Why taking the area of a polygon failed.
#[derive(Clone, Copy, PartialEq, Eq, Structural, Debug)]
pub enum AreaError {
    /// The polygon's ring sequence was empty: it has no outer boundary.
    MissingOuterRing,
}

impl AreaError {
    /// A short description of the error.
    pub fn message(&self) -> (m: &'static str)
        ensures
            m@ == "missing outer ring"@,
    {
        "missing outer ring"
    }
}

/// The total number of points over all of a polygon's rings.
pub open spec fn total_points(rings: Seq<Seq<Point>>) -> nat
    decreases rings.len(),
{
    if rings.len() == 0 {
        0
    } else {
        total_points(rings.drop_last()) + rings.last().len()
    }
}

/// Every ring of the polygon has its coordinates bounded by [`MAX_COORD`].
pub open spec fn rings_bounded(rings: Seq<Seq<Point>>) -> bool {
    forall|i: int| 0 <= i < rings.len() ==> coords_bounded(#[trigger] rings[i])
}

/// The polygon is small enough for every intermediate of the area
/// computation to fit in `i64`.
pub open spec fn polygon_fits(rings: Seq<Seq<Point>>) -> bool {
    rings_bounded(rings) && total_points(rings) <= MAX_POINTS
}

/// The summed signed areas of a sequence of hole rings.
pub open spec fn hole_area_sum(rings: Seq<Seq<Point>>) -> int
    decreases rings.len(),
{
    if rings.len() == 0 {
        0
    } else {
        hole_area_sum(rings.drop_last()) + ring_area_spec(rings.last())
    }
}

/// The net signed area of a polygon: the outer ring's area minus the area
/// of every hole ring.
pub open spec fn polygon_area_spec(rings: Seq<Seq<Point>>) -> int
    recommends
        rings.len() >= 1,
{
    ring_area_spec(rings[0]) - hole_area_sum(rings.skip(1))
}

/// Computation of the net signed area of a shape.
pub trait Area {
    /// The shape is small enough for the computation: coordinates and
    /// point counts within the bounds that keep `i64` arithmetic exact.
    spec fn area_allowed(&self) -> bool;

    /// The shape has the outer boundary the area computation needs.
    spec fn has_outer_ring(&self) -> bool;

    /// The exact signed area the computation must return.
    spec fn signed_area(&self) -> int;

    /// Net signed area of the shape: positive for a counter-clockwise
    /// outer boundary, with every hole's signed area subtracted. Fails
    /// exactly when the shape has no outer ring.
    fn area(&self) -> (r: Result<i64, AreaError>)
        requires
            self.area_allowed(),
        ensures
            r is Ok <==> self.has_outer_ring(),
            r is Ok ==> r->Ok_0 as int == self.signed_area(),
            r is Err ==> r->Err_0 == AreaError::MissingOuterRing,
    ;
}

proof fn lemma_ring_area_bound(s: Seq<Point>)
    requires
        coords_bounded(s),
    ensures
        -sum_bound(s.len() as int) <= ring_area_spec(s) <= sum_bound(s.len() as int),
{
    lemma_shoelace_sum_bound(s);
}

proof fn lemma_total_points_take(rings: Seq<Seq<Point>>, j: int)
    requires
        0 <= j <= rings.len(),
    ensures
        total_points(rings.take(j)) <= total_points(rings),
    decreases rings.len() - j,
{
    if j == rings.len() {
        assert(rings.take(j) =~= rings);
    } else {
        lemma_total_points_take(rings, j + 1);
        assert(rings.take(j + 1).drop_last() =~= rings.take(j));
        assert(total_points(rings.take(j + 1)) == total_points(rings.take(j)) + rings[j].len());
    }
}

impl Area for Polygon {
    open spec fn area_allowed(&self) -> bool {
        polygon_fits(self@)
    }

    open spec fn has_outer_ring(&self) -> bool {
        self@.len() >= 1
    }

    open spec fn signed_area(&self) -> int {
        polygon_area_spec(self@)
    }

    fn area(&self) -> (r: Result<i64, AreaError>) {
        let n: usize = self.rings.len();
        if n == 0 {
            return Err(AreaError::MissingOuterRing);
        }
        proof {
            assert(self.rings@[0]@ == self@[0]);
            lemma_total_points_take(self@, 1);
            assert(self@.take(1).drop_last() =~= self@.take(0));
            assert(self@.take(1).last() == self@[0]);
            assert(total_points(self@.take(0)) == 0);
            assert(total_points(self@.take(1)) == self@[0].len());
            lemma_ring_area_bound(self@[0]);
        }
        let mut acc: i64 = get_linestring_area(&self.rings[0]);
        let mut j: usize = 1;
        while j < n
            invariant
                1 <= j <= n,
                n == self@.len(),
                polygon_fits(self@),
                acc == ring_area_spec(self@[0]) - hole_area_sum(self@.skip(1).take(j - 1)),
                -sum_bound(total_points(self@.take(j as int)) as int) <= acc <= sum_bound(
                    total_points(self@.take(j as int)) as int,
                ),
            decreases n - j,
        {
            proof {
                assert(self.rings@[j as int]@ == self@[j as int]);
                lemma_total_points_take(self@, j + 1);
                assert(self@.take(j + 1).drop_last() =~= self@.take(j as int));
                assert(total_points(self@.take(j + 1)) == total_points(self@.take(j as int))
                    + self@[j as int].len());
                lemma_ring_area_bound(self@[j as int]);
            }
            let hole: i64 = get_linestring_area(&self.rings[j]);
            proof {
                let holes = self@.skip(1);
                assert(holes.take(j as int).drop_last() =~= holes.take(j - 1));
                assert(holes.take(j as int).last() == self@[j as int]);
                assert(hole_area_sum(holes.take(j as int)) == hole_area_sum(holes.take(j - 1))
                    + ring_area_spec(self@[j as int]));
            }
            acc = acc - hole;
            j = j + 1;
        }
        proof {
            assert(self@.skip(1).take(n - 1) =~= self@.skip(1));
        }
        Ok(acc)
    }
}

/// A ring with no points or a single point has signed area exactly zero:
/// there is no consecutive pair to contribute to the shoelace sum.
pub proof fn lemma_degenerate_ring_area_zero(s: Seq<Point>)
    requires
        s.len() <= 1,
    ensures
        ring_area_spec(s) == 0,
{
}

proof fn lemma_half_neg(n: int)
    ensures
        half_toward_zero(-n) == -half_toward_zero(n),
{
}

proof fn lemma_mul_zero(k: int, z: int)
    requires
        z == 0,
    ensures
        k * z == 0,
{
    assert(k * z == 0) by (nonlinear_arith)
        requires
            z == 0,
    ;
}

proof fn lemma_shoelace_sum_drop_first(s: Seq<Point>)
    requires
        s.len() >= 2,
    ensures
        shoelace_sum(s) == cross(s[0], s[1]) + shoelace_sum(s.drop_first()),
    decreases s.len(),
{
    if s.len() == 2 {
        assert(s.drop_last().len() == 1);
        assert(shoelace_sum(s.drop_last()) == 0);
        assert(s.drop_first().len() == 1);
        assert(shoelace_sum(s.drop_first()) == 0);
        assert(shoelace_sum(s) == shoelace_sum(s.drop_last()) + cross(s[0], s[1]));
    } else {
        let n: int = s.len() as int;
        lemma_shoelace_sum_drop_first(s.drop_last());
        assert(s.drop_last()[0] == s[0] && s.drop_last()[1] == s[1]);
        assert(s.drop_last().drop_first() =~= s.drop_first().drop_last());
        assert(shoelace_sum(s.drop_last()) == cross(s[0], s[1]) + shoelace_sum(
            s.drop_first().drop_last(),
        ));
        assert(s.drop_first()[s.drop_first().len() - 2] == s[n - 2]);
        assert(s.drop_first()[s.drop_first().len() - 1] == s[n - 1]);
        assert(shoelace_sum(s.drop_first()) == shoelace_sum(s.drop_first().drop_last()) + cross(
            s[n - 2],
            s[n - 1],
        ));
        assert(shoelace_sum(s) == shoelace_sum(s.drop_last()) + cross(s[n - 2], s[n - 1]));
    }
}

/// Reversing the order of a ring's points negates its shoelace sum and
/// its signed area: the magnitude is invariant under winding reversal.
pub proof fn lemma_reverse_negates_area(s: Seq<Point>)
    ensures
        shoelace_sum(s.reverse()) == -shoelace_sum(s),
        ring_area_spec(s.reverse()) == -ring_area_spec(s),
    decreases s.len(),
{
    if s.len() < 2 {
        assert(s.reverse().len() == s.len());
    } else {
        let r = s.reverse();
        assert(r.drop_last() =~= s.drop_first().reverse());
        lemma_reverse_negates_area(s.drop_first());
        lemma_shoelace_sum_drop_first(s);
        assert(r[r.len() - 2] == s[1] && r[r.len() - 1] == s[0]);
        assert(cross(s[1], s[0]) == -cross(s[0], s[1]));
        assert(shoelace_sum(r) == shoelace_sum(r.drop_last()) + cross(s[1], s[0]));
    }
    lemma_half_neg(shoelace_sum(s));
}

proof fn lemma_cross_translate(a: Point, b: Point, a2: Point, b2: Point, dx: int, dy: int)
    requires
        a2.0.x == a.0.x + dx,
        a2.0.y == a.0.y + dy,
        b2.0.x == b.0.x + dx,
        b2.0.y == b.0.y + dy,
    ensures
        cross(a2, b2) == cross(a, b) + dy * (a.0.x - b.0.x) + dx * (b.0.y - a.0.y),
{
    assert(cross(a2, b2) == cross(a, b) + dy * (a.0.x - b.0.x) + dx * (b.0.y - a.0.y))
        by (nonlinear_arith)
        requires
            a2.0.x == a.0.x + dx,
            a2.0.y == a.0.y + dy,
            b2.0.x == b.0.x + dx,
            b2.0.y == b.0.y + dy,
    ;
}

proof fn lemma_shoelace_translate(s: Seq<Point>, t: Seq<Point>, dx: int, dy: int)
    requires
        t.len() == s.len(),
        forall|i: int|
            0 <= i < s.len() ==> (#[trigger] t[i]).0.x == s[i].0.x + dx && t[i].0.y == s[i].0.y
                + dy,
    ensures
        s.len() == 0 ==> shoelace_sum(t) == 0,
        s.len() >= 1 ==> shoelace_sum(t) == shoelace_sum(s) + dy * (s[0].0.x - s[s.len()
            - 1].0.x) + dx * (s[s.len() - 1].0.y - s[0].0.y),
    decreases s.len(),
{
    let n: int = s.len() as int;
    if s.len() == 1 {
        lemma_mul_zero(dy, s[0].0.x - s[0].0.x);
        lemma_mul_zero(dx, s[0].0.y - s[0].0.y);
    } else if s.len() >= 2 {
        lemma_shoelace_translate(s.drop_last(), t.drop_last(), dx, dy);
        lemma_cross_translate(s[n - 2], s[n - 1], t[n - 2], t[n - 1], dx, dy);
        assert(dy * (s[0].0.x - s[n - 2].0.x) + dy * (s[n - 2].0.x - s[n - 1].0.x) == dy * (
        s[0].0.x - s[n - 1].0.x)) by (nonlinear_arith);
        assert(dx * (s[n - 2].0.y - s[0].0.y) + dx * (s[n - 1].0.y - s[n - 2].0.y) == dx * (
        s[n - 1].0.y - s[0].0.y)) by (nonlinear_arith);
    }
}

/// Translating every point of a closed ring by one common offset leaves
/// its shoelace sum, and so its signed area, unchanged. `t` is the ring
/// whose points are those of `s` shifted by `(dx, dy)`.
pub proof fn lemma_translation_invariant(s: Seq<Point>, t: Seq<Point>, dx: int, dy: int)
    requires
        t.len() == s.len(),
        forall|i: int|
            0 <= i < s.len() ==> (#[trigger] t[i]).0.x == s[i].0.x + dx && t[i].0.y == s[i].0.y
                + dy,
        s.len() >= 1 ==> s[0] == s[s.len() - 1],
    ensures
        shoelace_sum(t) == shoelace_sum(s),
        ring_area_spec(t) == ring_area_spec(s),
{
    lemma_shoelace_translate(s, t, dx, dy);
    if s.len() >= 1 {
        lemma_mul_zero(dy, s[0].0.x - s[s.len() - 1].0.x);
        lemma_mul_zero(dx, s[s.len() - 1].0.y - s[0].0.y);
    }
}

} // verus!
