//! Facts of integer arithmetic that the geometry rests on: bounds of
//! products, signs and order of fractions, and cross products of plane
//! vectors.

use vstd::prelude::*;

verus! {

/// A product is no larger than the product of its factors' bounds.
pub proof fn lemma_product_bound(a: int, b: int, ma: int, mb: int)
    by (nonlinear_arith)
    requires
        -ma <= a <= ma,
        -mb <= b <= mb,
    ensures
        -(ma * mb) <= a * b <= ma * mb,
{
}

/// The sign of a fraction, and whether it is below one, read off its
/// numerator `n` and its denominator `d`.
pub proof fn lemma_fraction_signs(n: int, d: int)
    by (nonlinear_arith)
    requires
        d != 0,
    ensures
        0 < n * d <==> (d > 0 && n > 0) || (d < 0 && n < 0),
        n * d < d * d <==> (d > 0 && n < d) || (d < 0 && n > d),
{
}

/// Two equal fractions, the first over a positive denominator, have the
/// same sign and lie on the same side of one.
pub proof fn lemma_same_fraction(a: int, s: int, n: int, d: int)
    by (nonlinear_arith)
    requires
        s > 0,
        d != 0,
        a * d == n * s,
    ensures
        0 < a <==> 0 < n * d,
        a < s <==> n * d < d * d,
{
}

/// Fractions with positive denominators are ordered transitively: from
/// `a / x < b / y` and `b / y <= c / z` follows `a / x < c / z`.
pub proof fn lemma_fractions_chain(a: int, x: int, b: int, y: int, c: int, z: int)
    requires
        x > 0,
        y > 0,
        z > 0,
        a * y < b * x,
        b * z <= c * y,
    ensures
        a * z < c * x,
{
    assert((a * y) * z < (b * x) * z) by (nonlinear_arith)
        requires
            a * y < b * x,
            z > 0,
    ;
    assert((b * z) * x <= (c * y) * x) by (nonlinear_arith)
        requires
            b * z <= c * y,
            x > 0,
    ;
    assert((a * y) * z == (a * z) * y && (b * x) * z == (b * z) * x && (c * y) * x == (c * x) * y)
        by (nonlinear_arith);
    assert(a * z < c * x) by (nonlinear_arith)
        requires
            (a * z) * y < (c * x) * y,
            y > 0,
    ;
}

/// A product with a difference of two products, multiplied out.
pub proof fn lemma_spread(a: int, s: int, b: int, k: int, c: int)
    by (nonlinear_arith)
    ensures
        a * (s * b - k * c) == s * (a * b) - k * (a * c),
        (s * b - k * c) * a == s * (b * a) - k * (c * a),
{
}

/// For any three plane vectors `d`, `e` and `f`, with `×` the cross
/// product: `(d × e) f - (d × f) e = (f × e) d`.
pub proof fn lemma_three_vectors(dx: int, dy: int, ex: int, ey: int, fx: int, fy: int)
    by (nonlinear_arith)
    ensures
        (dx * ey - dy * ex) * fx - (dx * fy - dy * fx) * ex == (fx * ey - fy * ex) * dx,
        (dx * ey - dy * ex) * fy - (dx * fy - dy * fx) * ey == (fx * ey - fy * ex) * dy,
{
}

/// The vector `s f - k e`, crossed with `d` from the left and with `e`
/// from the right: `d × (s f - k e) = s (d × f) - k (d × e)` and
/// `(s f - k e) × e = s (f × e)`.
pub proof fn lemma_crossed(s: int, k: int, dx: int, dy: int, ex: int, ey: int, fx: int, fy: int)
    ensures
        dx * (s * fy - k * ey) - dy * (s * fx - k * ex) == s * (dx * fy - dy * fx) - k * (dx * ey
            - dy * ex),
        (s * fx - k * ex) * ey - (s * fy - k * ey) * ex == s * (fx * ey - fy * ex),
{
    lemma_spread(dx, s, fy, k, ey);
    lemma_spread(dy, s, fx, k, ex);
    lemma_spread(ey, s, fx, k, ex);
    lemma_spread(ex, s, fy, k, ey);
    let (p, q) = (dx * fy, dy * fx);
    assert(s * p - s * q == s * (p - q)) by (nonlinear_arith);
    let (p, q) = (dx * ey, dy * ex);
    assert(k * p - k * q == k * (p - q)) by (nonlinear_arith);
    let (p, q) = (fx * ey, fy * ex);
    assert(s * p - s * q == s * (p - q)) by (nonlinear_arith);
    assert(ex * ey == ey * ex) by (nonlinear_arith);
}

} // verus!
