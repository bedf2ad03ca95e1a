//! Periodic-boundary geometry on an axis-aligned rectangular cell.

use vstd::prelude::*;

verus! {

/// Number of length units in one Angstrom.
pub const UNITS_PER_ANGSTROM: i64 = 1_000_000;

/// Largest cell edge and cutoff radius accepted, in length units.
pub const MAX_LENGTH: i64 = 2_000_000_000;

/// A cell whose three edges are positive and at most `MAX_LENGTH`.
pub open spec fn cell_ok(cell: [i64; 3]) -> bool {
    &&& 0 < cell[0] <= MAX_LENGTH
    &&& 0 < cell[1] <= MAX_LENGTH
    &&& 0 < cell[2] <= MAX_LENGTH
}

/// `d / l` rounded to the nearest integer, halves away from zero.
pub open spec fn round_quotient(d: int, l: int) -> int {
    if d >= 0 {
        (2 * d + l) / (2 * l)
    } else {
        -((-2 * d + l) / (2 * l))
    }
}

/// The separation `d` along an axis of period `l` after the minimum-image shift.
pub open spec fn wrap(d: int, l: int) -> int {
    d - round_quotient(d, l) * l
}

pub open spec fn sq(x: int) -> int {
    x * x
}

/// The corrected separation from `a` to `b` along `axis`.
pub open spec fn image_axis(a: [i64; 3], b: [i64; 3], cell: [i64; 3], axis: int) -> int {
    wrap(b[axis] - a[axis], cell[axis] as int)
}

/// The squared minimum-image distance between `a` and `b`.
pub open spec fn image_sq(a: [i64; 3], b: [i64; 3], cell: [i64; 3]) -> int {
    sq(image_axis(a, b, cell, 0)) + sq(image_axis(a, b, cell, 1)) + sq(image_axis(a, b, cell, 2))
}

proof fn lemma_wrap_bound(d: int, l: int)
    requires
        0 < l,
    ensures
        -l <= 2 * wrap(d, l) <= l,
        wrap(-d, l) == -wrap(d, l),
{
    let e = if d >= 0 { d } else { -d };
    let m = (2 * e + l) / (2 * l);
    assert(0 <= 2 * e + l - 2 * l * m < 2 * l) by (nonlinear_arith)
        requires
            0 < l,
            0 <= e,
            m == (2 * e + l) / (2 * l),
    ;
    assert(2 * l * m == 2 * (m * l)) by (nonlinear_arith);
    assert((-m) * l == -(m * l)) by (nonlinear_arith);
    assert(0 * l == 0);
    if d == 0 {
        assert(l / (2 * l) == 0) by (nonlinear_arith)
            requires
                0 < l,
        ;
        assert(round_quotient(0, l) == 0);
        assert(wrap(0, l) == 0);
    } else if d > 0 {
        assert(round_quotient(d, l) == m);
        assert(round_quotient(-d, l) == -m);
        assert(wrap(d, l) == e - m * l);
        assert(wrap(-d, l) == -d + m * l);
    } else {
        assert(round_quotient(d, l) == -m);
        assert(round_quotient(-d, l) == m);
        assert(wrap(d, l) == d + m * l);
        assert(wrap(-d, l) == e - m * l);
    }
}

/// Separation from `a` to `b` along one axis of period `l`, after the minimum-image shift.
fn wrap_axis(a: i64, b: i64, l: i64) -> (r: i64)
    requires
        0 < l <= MAX_LENGTH,
    ensures
        r == wrap(b - a, l as int),
        -l <= 2 * r <= l,
{
    proof {
        lemma_wrap_bound(b - a, l as int);
    }
    let d: i128 = b as i128 - a as i128;
    let e: u128 = if d >= 0 { d as u128 } else { (-d) as u128 };
    let l2: u128 = 2 * (l as u128);
    let m: u128 = (2 * e + l as u128) / l2;
    assert(m * (l as u128) <= e + l) by (nonlinear_arith)
        requires
            m as int == (2 * e + l) as int / l2 as int,
            l2 == 2 * l,
            l > 0,
    ;
    let c: i128 = e as i128 - (m * (l as u128)) as i128;
    if d >= 0 {
        c as i64
    } else {
        (-c) as i64
    }
}

/// The minimum-image separation vector from `a` to `b`: on each axis the raw
/// difference `b - a`, less the multiple of the cell edge nearest to it.
pub fn minimum_image_delta(a: [i64; 3], b: [i64; 3], cell: [i64; 3]) -> (r: [i64; 3])
    requires
        cell_ok(cell),
    ensures
        forall|i: int| 0 <= i < 3 ==> #[trigger] r[i] == image_axis(a, b, cell, i),
        forall|i: int| 0 <= i < 3 ==> -cell[i] <= 2 * #[trigger] r[i] <= cell[i],
{
    let x = wrap_axis(a[0], b[0], cell[0]);
    let y = wrap_axis(a[1], b[1], cell[1]);
    let z = wrap_axis(a[2], b[2], cell[2]);
    let r = [x, y, z];
    r
}

proof fn lemma_square_bound(x: int, l: int)
    requires
        0 < l,
        -l <= 2 * x <= l,
    ensures
        0 <= 4 * sq(x) <= sq(l),
{
    assert(0 <= 4 * (x * x) <= l * l) by (nonlinear_arith)
        requires
            0 < l,
            -l <= 2 * x <= l,
    ;
}

/// Each corrected separation is at most half an edge, so the squared
/// distance is at most a quarter of the cell's squared diagonal.
pub proof fn lemma_image_sq_bound(a: [i64; 3], b: [i64; 3], cell: [i64; 3])
    requires
        cell_ok(cell),
    ensures
        0 <= 4 * image_sq(a, b, cell) <= sq(cell[0] as int) + sq(cell[1] as int) + sq(cell[2] as int),
        image_sq(a, b, cell) <= 3_000_000_000_000_000_000,
{
    lemma_wrap_bound(b[0] - a[0], cell[0] as int);
    lemma_wrap_bound(b[1] - a[1], cell[1] as int);
    lemma_wrap_bound(b[2] - a[2], cell[2] as int);
    lemma_square_bound(image_axis(a, b, cell, 0), cell[0] as int);
    lemma_square_bound(image_axis(a, b, cell, 1), cell[1] as int);
    lemma_square_bound(image_axis(a, b, cell, 2), cell[2] as int);
    assert(sq(cell[0] as int) <= sq(MAX_LENGTH as int)) by (nonlinear_arith)
        requires
            0 < cell[0] <= MAX_LENGTH,
    ;
    assert(sq(cell[1] as int) <= sq(MAX_LENGTH as int)) by (nonlinear_arith)
        requires
            0 < cell[1] <= MAX_LENGTH,
    ;
    assert(sq(cell[2] as int) <= sq(MAX_LENGTH as int)) by (nonlinear_arith)
        requires
            0 < cell[2] <= MAX_LENGTH,
    ;
}

/// The squared minimum-image distance between `a` and `b`.
pub fn get_distance_pbc_sq(a: [i64; 3], b: [i64; 3], cell: [i64; 3]) -> (r: u64)
    requires
        cell_ok(cell),
    ensures
        r == image_sq(a, b, cell),
        4 * r <= sq(cell[0] as int) + sq(cell[1] as int) + sq(cell[2] as int),
{
    let d = minimum_image_delta(a, b, cell);
    proof {
        lemma_image_sq_bound(a, b, cell);
        lemma_square_bound(d[0] as int, cell[0] as int);
        lemma_square_bound(d[1] as int, cell[1] as int);
        lemma_square_bound(d[2] as int, cell[2] as int);
    }
    let x = d[0] as i128;
    let y = d[1] as i128;
    let z = d[2] as i128;
    (x * x + y * y + z * z) as u64
}

/// Minimum-image distance is symmetric in its two points.
pub proof fn lemma_distance_symmetric(a: [i64; 3], b: [i64; 3], cell: [i64; 3])
    requires
        cell_ok(cell),
    ensures
        image_sq(a, b, cell) == image_sq(b, a, cell),
{
    lemma_wrap_bound(b[0] - a[0], cell[0] as int);
    lemma_wrap_bound(b[1] - a[1], cell[1] as int);
    lemma_wrap_bound(b[2] - a[2], cell[2] as int);
    assert(a[0] - b[0] == -(b[0] - a[0]));
    assert(a[1] - b[1] == -(b[1] - a[1]));
    assert(a[2] - b[2] == -(b[2] - a[2]));
    assert(forall|x: int| #[trigger] sq(-x) == sq(x)) by {
        assert forall|x: int| #[trigger] sq(-x) == sq(x) by {
            assert((-x) * (-x) == x * x) by (nonlinear_arith);
        }
    }
}

/// In a cubic cell of edge `l` no minimum-image distance exceeds half the
/// cell's body diagonal, `l * sqrt(3) / 2`; squared, `4 * d * d <= 3 * l * l`.
pub proof fn lemma_minimum_image_bound(a: [i64; 3], b: [i64; 3], l: i64)
    requires
        0 < l <= MAX_LENGTH,
    ensures
        4 * image_sq(a, b, [l, l, l]) <= 3 * sq(l as int),
{
    let cell = [l, l, l];
    lemma_wrap_bound(b[0] - a[0], l as int);
    lemma_wrap_bound(b[1] - a[1], l as int);
    lemma_wrap_bound(b[2] - a[2], l as int);
    assert(cell[0] == l && cell[1] == l && cell[2] == l);
    lemma_square_bound(image_axis(a, b, cell, 0), l as int);
    lemma_square_bound(image_axis(a, b, cell, 1), l as int);
    lemma_square_bound(image_axis(a, b, cell, 2), l as int);
}

/// The three squared minimum-image distances that fix the angle at `vertex`
/// in the triangle `a`, `vertex`, `b` by the law of cosines:
/// `cos = (va + vb - ab) / (2 * sqrt(va) * sqrt(vb))`.
#[derive(Clone, Copy, Debug, PartialEq, Eq)]
pub struct CosineTerms {
    /// Squared distance from the vertex to `a`.
    pub va: u64,
    /// Squared distance from the vertex to `b`.
    pub vb: u64,
    /// Squared distance from `a` to `b`.
    pub ab: u64,
}

/// The numerator `va + vb - ab` of the law-of-cosines quotient.
pub open spec fn cos_numerator(t: CosineTerms) -> int {
    t.va + t.vb - t.ab
}

/// The law-of-cosines terms of the triangle `a`, `vertex`, `b`.
pub open spec fn cosine_terms_of(a: [i64; 3], vertex: [i64; 3], b: [i64; 3], cell: [i64; 3]) -> CosineTerms {
    CosineTerms {
        va: image_sq(vertex, a, cell) as u64,
        vb: image_sq(vertex, b, cell) as u64,
        ab: image_sq(a, b, cell) as u64,
    }
}

/// The angle at the vertex, with the cosine clamped to `[-1, 1]`, is below
/// 30 degrees: the cosine exceeds `sqrt(3) / 2`. Both sides of the angle must
/// have positive length; otherwise the angle is undefined and the test fails.
pub open spec fn below_thirty_degrees(t: CosineTerms) -> bool {
    &&& t.va > 0
    &&& t.vb > 0
    &&& cos_numerator(t) > 0
    &&& sq(cos_numerator(t)) > 3 * t.va * t.vb
}

/// The angle at `vertex` is defined: both of its sides have positive length.
pub open spec fn angle_defined(a: [i64; 3], vertex: [i64; 3], b: [i64; 3], cell: [i64; 3]) -> bool {
    image_sq(vertex, a, cell) > 0 && image_sq(vertex, b, cell) > 0
}

fn law_of_cosines_terms(a: [i64; 3], vertex: [i64; 3], b: [i64; 3], cell: [i64; 3]) -> (r: CosineTerms)
    requires
        cell_ok(cell),
    ensures
        r == cosine_terms_of(a, vertex, b, cell),
        4 * r.va <= sq(cell[0] as int) + sq(cell[1] as int) + sq(cell[2] as int),
        4 * r.vb <= sq(cell[0] as int) + sq(cell[1] as int) + sq(cell[2] as int),
        4 * r.ab <= sq(cell[0] as int) + sq(cell[1] as int) + sq(cell[2] as int),
{
    let va = get_distance_pbc_sq(vertex, a, cell);
    let vb = get_distance_pbc_sq(vertex, b, cell);
    let ab = get_distance_pbc_sq(a, b, cell);
    CosineTerms { va, vb, ab }
}

/// The law-of-cosines terms of the angle at `vertex` between `a` and `b`;
/// `None` where the angle is undefined because `a` or `b` lies on the vertex.
pub fn angle_cosine_terms(a: [i64; 3], vertex: [i64; 3], b: [i64; 3], cell: [i64; 3]) -> (r: Option<
    CosineTerms,
>)
    requires
        cell_ok(cell),
    ensures
        r is None <==> !angle_defined(a, vertex, b, cell),
        r matches Some(t) ==> t == cosine_terms_of(a, vertex, b, cell),
{
    proof {
        lemma_image_sq_bound(vertex, a, cell);
        lemma_image_sq_bound(vertex, b, cell);
    }
    let t = law_of_cosines_terms(a, vertex, b, cell);
    if t.va == 0 || t.vb == 0 {
        None
    } else {
        Some(t)
    }
}

/// Whether the angle at `vertex` between `a` and `b` is below 30 degrees.
pub fn angle_below_thirty_degrees(a: [i64; 3], vertex: [i64; 3], b: [i64; 3], cell: [i64; 3]) -> (r: bool)
    requires
        cell_ok(cell),
    ensures
        r == below_thirty_degrees(cosine_terms_of(a, vertex, b, cell)),
{
    let t = law_of_cosines_terms(a, vertex, b, cell);
    if t.va == 0 || t.vb == 0 {
        return false;
    }
    let ghost bound: int = 3 * sq(MAX_LENGTH as int);
    proof {
        assert(4 * t.va <= bound && 4 * t.vb <= bound && 4 * t.ab <= bound) by (nonlinear_arith)
            requires
                4 * t.va <= sq(cell[0] as int) + sq(cell[1] as int) + sq(cell[2] as int),
                4 * t.vb <= sq(cell[0] as int) + sq(cell[1] as int) + sq(cell[2] as int),
                4 * t.ab <= sq(cell[0] as int) + sq(cell[1] as int) + sq(cell[2] as int),
                0 < cell[0] <= MAX_LENGTH,
                0 < cell[1] <= MAX_LENGTH,
                0 < cell[2] <= MAX_LENGTH,
                bound == 3 * sq(MAX_LENGTH as int),
        ;
    }
    let num: i128 = t.va as i128 + t.vb as i128 - t.ab as i128;
    if num <= 0 {
        return false;
    }
    proof {
        assert(bound == 12_000_000_000_000_000_000);
        assert(4 * (num * num) <= bound * bound && 16 * (t.va * t.vb) <= bound * bound) by (nonlinear_arith)
            requires
                0 < num <= t.va + t.vb,
                4 * t.va <= bound,
                4 * t.vb <= bound,
                0 <= t.va,
                0 <= t.vb,
        ;
    }
    let p: i128 = (t.va as i128) * (t.vb as i128);
    assert(3 * p == 3 * t.va * t.vb) by (nonlinear_arith)
        requires
            p == t.va * t.vb,
    ;
    num * num > 3 * p
}

/// When both ends of an angle coincide and lie apart from the vertex, the
/// cosine is exactly one: the angle is zero.
pub proof fn lemma_coincident_ends_zero_angle(a: [i64; 3], vertex: [i64; 3], cell: [i64; 3])
    requires
        cell_ok(cell),
        image_sq(vertex, a, cell) > 0,
    ensures
        ({
            let t = cosine_terms_of(a, vertex, a, cell);
            &&& cos_numerator(t) > 0
            &&& sq(cos_numerator(t)) == 4 * t.va * t.vb
        }),
{
    lemma_wrap_bound(0, cell[0] as int);
    lemma_wrap_bound(0, cell[1] as int);
    lemma_wrap_bound(0, cell[2] as int);
    assert(wrap(0, cell[0] as int) == 0);
    assert(wrap(0, cell[1] as int) == 0);
    assert(wrap(0, cell[2] as int) == 0);
    assert(image_axis(a, a, cell, 0) == 0);
    assert(image_axis(a, a, cell, 1) == 0);
    assert(image_axis(a, a, cell, 2) == 0);
    assert(image_sq(a, a, cell) == 0);
    lemma_image_sq_bound(vertex, a, cell);
    let v = image_sq(vertex, a, cell);
    assert((v + v) * (v + v) == 4 * v * v) by (nonlinear_arith);
}

} // verus!
