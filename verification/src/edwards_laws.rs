//! What a step means on the curve: it is the addition of the twisted Edwards
//! curve `-x^2 + y^2 = 1 + d * x^2 * y^2`.

use vstd::prelude::*;

use crate::edwards::{
    completed_sum, extended, lemma_sum_below, minus_product, plus_product, point_below, prepared_below,
    stepped, Coordinates, Prepared,
};
use crate::field::{
    below, congruent, difference, product, sum, value, FACTOR_BOUND, PRODUCT_BOUND,
};
use crate::field_laws::{
    law_congruence, law_difference, law_difference_bounds, law_product, law_product_bounds, law_sum,
};

verus! {

/// Whether a point stands for the affine point `(x, y)`.
pub open spec fn stands_for(p: Coordinates, x: int, y: int) -> bool {
    &&& congruent(value(p.x), x * value(p.z))
    &&& congruent(value(p.y), y * value(p.z))
    &&& congruent(value(p.t), x * y * value(p.z))
}

/// Whether a prepared point stands for the affine point `(x, y)` on the curve
/// with the constant `d`.
pub open spec fn prepared_for(q: Prepared, d: int, x: int, y: int) -> bool {
    &&& congruent(value(q.y_plus_x), y + x)
    &&& congruent(value(q.y_minus_x), y - x)
    &&& congruent(value(q.xy2d), 2 * d * x * y)
}

/// A product of limbs stands for the product of what its factors stand for.
pub proof fn lemma_product(a: Seq<int>, b: Seq<int>, x: int, y: int)
    requires
        below(a, FACTOR_BOUND as int),
        below(b, FACTOR_BOUND as int),
        congruent(value(a), x),
        congruent(value(b), y),
    ensures
        congruent(value(product(a, b)), x * y),
{
    law_product_bounds(a, b);
    law_product(a, b);
    law_congruence(value(a), x, value(b), y);
}

/// A difference of limbs stands for the difference of what they stand for.
pub proof fn lemma_difference(a: Seq<int>, b: Seq<int>, x: int, y: int)
    requires
        congruent(value(a), x),
        congruent(value(b), y),
    ensures
        congruent(value(difference(a, b)), x - y),
{
    law_difference(a, b);
    law_congruence(value(a), x, value(b), y);
}

/// A sum of limbs stands for the sum of what they stand for.
pub proof fn lemma_sum(a: Seq<int>, b: Seq<int>, x: int, y: int)
    requires
        congruent(value(a), x),
        congruent(value(b), y),
    ensures
        congruent(value(sum(a, b)), x + y),
{
    law_sum(a, b);
    law_congruence(value(a), x, value(b), y);
}

proof fn lemma_numerators(x1: int, y1: int, x2: int, y2: int, z: int)
    ensures
        (y1 * z + x1 * z) * (y2 + x2) - (y1 * z - x1 * z) * (y2 - x2) == 2 * z * (x1 * y2 + y1
            * x2),
        (y1 * z + x1 * z) * (y2 + x2) + (y1 * z - x1 * z) * (y2 - x2) == 2 * z * (y1 * y2 + x1
            * x2),
{
    let a = y1 * z;
    let b = x1 * z;
    assert((a + b) * (y2 + x2) == a * y2 + a * x2 + b * y2 + b * x2) by (nonlinear_arith);
    assert((a - b) * (y2 - x2) == a * y2 - a * x2 - b * y2 + b * x2) by (nonlinear_arith);
    assert(b * y2 == z * (x1 * y2)) by (nonlinear_arith)
        requires
            b == x1 * z,
    ;
    assert(a * x2 == z * (y1 * x2)) by (nonlinear_arith)
        requires
            a == y1 * z,
    ;
    assert(a * y2 == z * (y1 * y2)) by (nonlinear_arith)
        requires
            a == y1 * z,
    ;
    assert(b * x2 == z * (x1 * x2)) by (nonlinear_arith)
        requires
            b == x1 * z,
    ;
    assert(2 * z * (x1 * y2 + y1 * x2) == 2 * (z * (x1 * y2)) + 2 * (z * (y1 * x2)))
        by (nonlinear_arith);
    assert(2 * z * (y1 * y2 + x1 * x2) == 2 * (z * (y1 * y2)) + 2 * (z * (x1 * x2)))
        by (nonlinear_arith);
}

proof fn lemma_denominators(x1: int, y1: int, x2: int, y2: int, z: int, d: int)
    ensures
        z + z + (x1 * y1 * z) * (2 * d * x2 * y2) == 2 * z * (1 + d * x1 * x2 * y1 * y2),
        z + z - (x1 * y1 * z) * (2 * d * x2 * y2) == 2 * z * (1 - d * x1 * x2 * y1 * y2),
{
    assert((x1 * y1 * z) * (2 * d * x2 * y2) == 2 * z * (d * x1 * x2 * y1 * y2))
        by (nonlinear_arith);
    assert(2 * z * (1 + d * x1 * x2 * y1 * y2) == 2 * z + 2 * z * (d * x1 * x2 * y1 * y2))
        by (nonlinear_arith);
    assert(2 * z * (1 - d * x1 * x2 * y1 * y2) == 2 * z - 2 * z * (d * x1 * x2 * y1 * y2))
        by (nonlinear_arith);
}

/// A completed sum holds the numerators and denominators of the addition of
/// the curve, all multiplied by `2 * z`.
pub proof fn law_completed_sum(
    p: Coordinates,
    q: Prepared,
    d: int,
    x1: int,
    y1: int,
    x2: int,
    y2: int,
)
    requires
        point_below(p, PRODUCT_BOUND as int),
        prepared_below(q, FACTOR_BOUND as int),
        stands_for(p, x1, y1),
        prepared_for(q, d, x2, y2),
    ensures
        congruent(value(completed_sum(p, q).x), 2 * value(p.z) * (x1 * y2 + y1 * x2)),
        congruent(value(completed_sum(p, q).y), 2 * value(p.z) * (y1 * y2 + x1 * x2)),
        congruent(value(completed_sum(p, q).z), 2 * value(p.z) * (1 + d * x1 * x2 * y1 * y2)),
        congruent(value(completed_sum(p, q).t), 2 * value(p.z) * (1 - d * x1 * x2 * y1 * y2)),
{
    let z = value(p.z);
    lemma_sum_below(p.y, p.x, PRODUCT_BOUND as int, PRODUCT_BOUND as int);
    law_difference_bounds(p.y, p.x);
    lemma_sum(p.y, p.x, y1 * z, x1 * z);
    lemma_difference(p.y, p.x, y1 * z, x1 * z);
    lemma_product(sum(p.y, p.x), q.y_plus_x, y1 * z + x1 * z, y2 + x2);
    lemma_product(difference(p.y, p.x), q.y_minus_x, y1 * z - x1 * z, y2 - x2);
    let pp = plus_product(p, q);
    let mm = minus_product(p, q);
    let plus = (y1 * z + x1 * z) * (y2 + x2);
    let minus = (y1 * z - x1 * z) * (y2 - x2);
    lemma_sum(pp, mm, plus, minus);
    lemma_difference(pp, mm, plus, minus);
    lemma_numerators(x1, y1, x2, y2, z);
    lemma_product(p.t, q.xy2d, x1 * y1 * z, 2 * d * x2 * y2);
    let twist = product(p.t, q.xy2d);
    lemma_sum(p.z, p.z, z, z);
    lemma_sum(sum(p.z, p.z), twist, z + z, (x1 * y1 * z) * (2 * d * x2 * y2));
    lemma_difference(sum(p.z, p.z), twist, z + z, (x1 * y1 * z) * (2 * d * x2 * y2));
    lemma_denominators(x1, y1, x2, y2, z, d);
}

/// Bringing a completed point over one denominator keeps both coordinates and
/// makes the fourth coordinate their product.
pub proof fn law_extended(p: Coordinates)
    requires
        point_below(p, FACTOR_BOUND as int),
    ensures
        congruent(value(extended(p).x) * value(p.z), value(extended(p).z) * value(p.x)),
        congruent(value(extended(p).y) * value(p.t), value(extended(p).z) * value(p.y)),
        congruent(
            value(extended(p).x) * value(extended(p).y),
            value(extended(p).z) * value(extended(p).t),
        ),
{
    let x = value(p.x);
    let y = value(p.y);
    let z = value(p.z);
    let t = value(p.t);
    lemma_product(p.x, p.t, x, t);
    lemma_product(p.y, p.z, y, z);
    lemma_product(p.z, p.t, z, t);
    lemma_product(p.x, p.y, x, y);
    let xt = value(product(p.x, p.t));
    let yz = value(product(p.y, p.z));
    let zt = value(product(p.z, p.t));
    let xy = value(product(p.x, p.y));
    law_congruence(xt, x * t, z, z);
    law_congruence(zt, z * t, x, x);
    assert((x * t) * z == (z * t) * x) by (nonlinear_arith);
    law_congruence(yz, y * z, t, t);
    law_congruence(zt, z * t, y, y);
    assert((y * z) * t == (z * t) * y) by (nonlinear_arith);
    law_congruence(xt, x * t, yz, y * z);
    law_congruence(zt, z * t, xy, x * y);
    assert((x * t) * (y * z) == (z * t) * (x * y)) by (nonlinear_arith);
}

proof fn lemma_over_denominator(sx: int, sz: int, cx: int, cz: int, t: int, k: int, n: int, m: int)
    requires
        congruent(sx, cx * t),
        congruent(sz, cz * t),
        congruent(cx, k * n),
        congruent(cz, k * m),
    ensures
        congruent(sx * m, sz * n),
{
    law_congruence(cx, k * n, t, t);
    law_congruence(cz, k * m, t, t);
    law_congruence(sx, k * n * t, m, m);
    law_congruence(sz, k * m * t, n, n);
    assert(k * n * t * m == k * m * t * n) by (nonlinear_arith);
}

/// A step adds on the curve: where the point stands for `(x1, y1)` and the
/// prepared point for `(x2, y2)`, the coordinates of the sum over its
/// denominator are `(x1 * y2 + y1 * x2) / (1 + d * x1 * x2 * y1 * y2)` and
/// `(y1 * y2 + x1 * x2) / (1 - d * x1 * x2 * y1 * y2)`, and its fourth
/// coordinate is their product. The fractions are stated multiplied out.
pub proof fn law_step_adds(
    p: Coordinates,
    q: Prepared,
    d: int,
    x1: int,
    y1: int,
    x2: int,
    y2: int,
)
    requires
        point_below(p, PRODUCT_BOUND as int),
        prepared_below(q, FACTOR_BOUND as int),
        stands_for(p, x1, y1),
        prepared_for(q, d, x2, y2),
    ensures
        congruent(
            value(stepped(p, q).x) * (1 + d * x1 * x2 * y1 * y2),
            value(stepped(p, q).z) * (x1 * y2 + y1 * x2),
        ),
        congruent(
            value(stepped(p, q).y) * (1 - d * x1 * x2 * y1 * y2),
            value(stepped(p, q).z) * (y1 * y2 + x1 * x2),
        ),
        congruent(
            value(stepped(p, q).x) * value(stepped(p, q).y),
            value(stepped(p, q).z) * value(stepped(p, q).t),
        ),
{
    reveal(stepped);
    let c = completed_sum(p, q);
    let s = stepped(p, q);
    let k = 2 * value(p.z);
    let cx = value(c.x);
    let cy = value(c.y);
    let cz = value(c.z);
    let ct = value(c.t);
    lemma_completed_below(p, q);
    law_completed_sum(p, q, d, x1, y1, x2, y2);
    law_extended(c);
    lemma_product(c.x, c.t, cx, ct);
    lemma_product(c.y, c.z, cy, cz);
    lemma_product(c.z, c.t, cz, ct);
    let one_plus = 1 + d * x1 * x2 * y1 * y2;
    let one_minus = 1 - d * x1 * x2 * y1 * y2;
    lemma_over_denominator(value(s.x), value(s.z), cx, cz, ct, k, x1 * y2 + y1 * x2, one_plus);
    assert(cz * ct == ct * cz) by (nonlinear_arith);
    lemma_over_denominator(value(s.y), value(s.z), cy, ct, cz, k, y1 * y2 + x1 * x2, one_minus);
}

/// A completed sum of bounded points has limbs below 2^54.
pub proof fn lemma_completed_below(p: Coordinates, q: Prepared)
    requires
        point_below(p, PRODUCT_BOUND as int),
        prepared_below(q, FACTOR_BOUND as int),
    ensures
        point_below(completed_sum(p, q), FACTOR_BOUND as int),
{
    let b = PRODUCT_BOUND as int;
    let pp = plus_product(p, q);
    let mm = minus_product(p, q);
    let twice_z = sum(p.z, p.z);
    let twist = product(p.t, q.xy2d);
    lemma_sum_below(p.y, p.x, b, b);
    law_difference_bounds(p.y, p.x);
    law_product_bounds(sum(p.y, p.x), q.y_plus_x);
    law_product_bounds(difference(p.y, p.x), q.y_minus_x);
    law_product_bounds(p.t, q.xy2d);
    lemma_sum_below(pp, mm, b, b);
    law_difference_bounds(pp, mm);
    lemma_sum_below(p.z, p.z, b, b);
    lemma_sum_below(twice_z, twist, b + b, b);
    law_difference_bounds(twice_z, twist);
}

} // verus!
