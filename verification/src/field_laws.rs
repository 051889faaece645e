//! What the limb operations mean modulo 2^255 - 19.

use vstd::arithmetic::div_mod::*;
use vstd::prelude::*;

use crate::field::{
    below, can_multiply, can_subtract, carried, carries_whole, carry, column, congruent,
    difference, fits, folded, prime, product, raised_difference, reduced, sum, value,
    FACTOR_BOUND, PRODUCT_BOUND, RADIX,
};

verus! {

/// Integers that differ by a multiple of the modulus are congruent.
pub proof fn lemma_congruent(a: int, b: int, k: int)
    requires
        a == b + prime() * k,
    ensures
        congruent(a, b),
{
    lemma_mod_multiples_vanish(k, b, prime());
}

/// Congruence is kept by sums, differences and products.
pub proof fn law_congruence(a: int, b: int, c: int, d: int)
    requires
        congruent(a, b),
        congruent(c, d),
    ensures
        congruent(a + c, b + d),
        congruent(a - c, b - d),
        congruent(a * c, b * d),
{
    let p = prime();
    lemma_add_mod_noop(a, c, p);
    lemma_add_mod_noop(b, d, p);
    lemma_sub_mod_noop(a, c, p);
    lemma_sub_mod_noop(b, d, p);
    lemma_mul_mod_noop(a, c, p);
    lemma_mul_mod_noop(b, d, p);
}

/// Adding limbs adds the integers that they stand for.
pub proof fn law_sum(a: Seq<int>, b: Seq<int>)
    ensures
        value(sum(a, b)) == value(a) + value(b),
{
}

/// Carrying takes the modulus off as often as the last limb overflows, so the
/// residue stays; the limbs of machine words come out below 2^52.
pub proof fn law_reduced(x: Seq<int>)
    ensures
        value(reduced(x)) == value(x) - prime() * (x[4] / (RADIX as int)),
        congruent(value(reduced(x)), value(x)),
        fits(x) ==> below(reduced(x), PRODUCT_BOUND as int),
{
    let r = RADIX as int;
    lemma_fundamental_div_mod(x[0], r);
    lemma_fundamental_div_mod(x[1], r);
    lemma_fundamental_div_mod(x[2], r);
    lemma_fundamental_div_mod(x[3], r);
    lemma_fundamental_div_mod(x[4], r);
    lemma_congruent(value(reduced(x)), value(x), -(x[4] / r));
    if fits(x) {
        assert(0 <= x[0] <= u64::MAX && 0 <= x[1] <= u64::MAX && 0 <= x[2] <= u64::MAX);
        assert(0 <= x[3] <= u64::MAX && 0 <= x[4] <= u64::MAX);
    }
}

/// A difference of limbs stands for the difference of the residues.
pub proof fn law_difference(a: Seq<int>, b: Seq<int>)
    ensures
        congruent(value(difference(a, b)), value(a) - value(b)),
{
    let raw = raised_difference(a, b);
    law_reduced(raw);
    lemma_congruent(value(raw), value(a) - value(b), 16);
}

/// Limbs below 2^54 can be subtracted from one another, and the difference has
/// limbs below 2^52.
pub proof fn law_difference_bounds(a: Seq<int>, b: Seq<int>)
    requires
        below(a, FACTOR_BOUND as int),
        below(b, FACTOR_BOUND as int),
    ensures
        can_subtract(a, b),
        below(difference(a, b), PRODUCT_BOUND as int),
{
    let raw = raised_difference(a, b);
    assert(0 <= a[0] < FACTOR_BOUND && 0 <= a[1] < FACTOR_BOUND && 0 <= a[2] < FACTOR_BOUND);
    assert(0 <= a[3] < FACTOR_BOUND && 0 <= a[4] < FACTOR_BOUND);
    assert(0 <= b[0] < FACTOR_BOUND && 0 <= b[1] < FACTOR_BOUND && 0 <= b[2] < FACTOR_BOUND);
    assert(0 <= b[3] < FACTOR_BOUND && 0 <= b[4] < FACTOR_BOUND);
    law_reduced(raw);
}

proof fn lemma_scale(k: int, x: int, y: int)
    ensures
        k * (x + 0x8_0000_0000_0000 * y) == k * x + 0x8_0000_0000_0000 * (k * y),
        (x + 0x8_0000_0000_0000 * y) * k == x * k + 0x8_0000_0000_0000 * (y * k),
{
    assert(k * (x + 0x8_0000_0000_0000 * y) == k * x + 0x8_0000_0000_0000 * (k * y))
        by (nonlinear_arith);
    assert((x + 0x8_0000_0000_0000 * y) * k == x * k + 0x8_0000_0000_0000 * (y * k))
        by (nonlinear_arith);
}

proof fn lemma_scaled_value(k: int, b: Seq<int>)
    ensures
        k * value(b) == value(seq![k * b[0], k * b[1], k * b[2], k * b[3], k * b[4]]),
{
    let b3 = b[3] + 0x8_0000_0000_0000 * b[4];
    let b2 = b[2] + 0x8_0000_0000_0000 * b3;
    let b1 = b[1] + 0x8_0000_0000_0000 * b2;
    lemma_scale(k, b[0], b1);
    lemma_scale(k, b[1], b2);
    lemma_scale(k, b[2], b3);
    lemma_scale(k, b[3], b[4]);
}

/// The columns of a product stand for the product of the residues.
proof fn lemma_columns(a: Seq<int>, b: Seq<int>) -> (high: int)
    ensures
        value(a) * value(b) == value(
            seq![
                column(a, b, 0),
                column(a, b, 1),
                column(a, b, 2),
                column(a, b, 3),
                column(a, b, 4),
            ],
        ) + prime() * high,
{
    let v = value(b);
    let a3 = a[3] + 0x8_0000_0000_0000 * a[4];
    let a2 = a[2] + 0x8_0000_0000_0000 * a3;
    let a1 = a[1] + 0x8_0000_0000_0000 * a2;
    lemma_scale(v, a[0], a1);
    lemma_scale(v, a[1], a2);
    lemma_scale(v, a[2], a3);
    lemma_scale(v, a[3], a[4]);
    lemma_scaled_value(a[0], b);
    lemma_scaled_value(a[1], b);
    lemma_scaled_value(a[2], b);
    lemma_scaled_value(a[3], b);
    lemma_scaled_value(a[4], b);
    let h0 = a[4] * b[1] + a[3] * b[2] + a[2] * b[3] + a[1] * b[4];
    let h1 = a[4] * b[2] + a[3] * b[3] + a[2] * b[4];
    let h2 = a[4] * b[3] + a[3] * b[4];
    let h3 = a[4] * b[4];
    let high = h0 + 0x8_0000_0000_0000 * (h1 + 0x8_0000_0000_0000 * (h2 + 0x8_0000_0000_0000 * h3));
    assert(value(a) * v == a[0] * v + 0x8_0000_0000_0000 * (a[1] * v + 0x8_0000_0000_0000 * (a[2]
        * v + 0x8_0000_0000_0000 * (a[3] * v + 0x8_0000_0000_0000 * (a[4] * v)))));
    high
}

/// Where no column loses anything of what it hands on, a product of limbs
/// stands for the product of the residues.
pub proof fn law_product(a: Seq<int>, b: Seq<int>)
    requires
        fits(a),
        fits(b),
        carries_whole(a, b),
    ensures
        congruent(value(product(a, b)), value(a) * value(b)),
{
    let r = RADIX as int;
    reveal_with_fuel(carried, 6);
    lemma_nonnegative(a, b);
    let high = lemma_columns(a, b);
    let d0 = carried(a, b, 0);
    let d1 = carried(a, b, 1);
    let d2 = carried(a, b, 2);
    let d3 = carried(a, b, 3);
    let d4 = carried(a, b, 4);
    let f = folded(a, b);
    lemma_fundamental_div_mod(d0, r);
    lemma_fundamental_div_mod(d1, r);
    lemma_fundamental_div_mod(d2, r);
    lemma_fundamental_div_mod(d3, r);
    lemma_fundamental_div_mod(d4, r);
    lemma_fundamental_div_mod(f, r);
    lemma_whole_carry(d0);
    lemma_whole_carry(d1);
    lemma_whole_carry(d2);
    lemma_whole_carry(d3);
    lemma_whole_carry(d4);
    lemma_congruent(value(product(a, b)), value(a) * value(b), -(high + carry(d4)));
}

proof fn lemma_whole_carry(c: int)
    requires
        0 <= c,
        c / (RADIX as int) < 0x1_0000_0000_0000_0000,
    ensures
        carry(c) == c / (RADIX as int),
{
    lemma_small_mod((c / (RADIX as int)) as nat, 0x1_0000_0000_0000_0000);
}

proof fn lemma_limb_product(x: int, y: int)
    requires
        0 <= x,
        0 <= y,
    ensures
        0 <= x * y,
{
    assert(0 <= x * y) by (nonlinear_arith)
        requires
            0 <= x,
            0 <= y,
    ;
}

/// Columns are natural numbers.
proof fn lemma_nonnegative(a: Seq<int>, b: Seq<int>)
    requires
        fits(a),
        fits(b),
    ensures
        forall|k: int| 0 <= k < 5 ==> 0 <= #[trigger] column(a, b, k),
        forall|k: int| 0 <= k < 5 ==> 0 <= #[trigger] carried(a, b, k),
{
    assert forall|i: int, j: int| 0 <= i < 5 && 0 <= j < 5 implies 0 <= #[trigger] (a[i] * b[j]) by {
        lemma_limb_product(a[i], b[j]);
    }
    assert forall|k: int| 0 <= k < 5 implies 0 <= #[trigger] carried(a, b, k) by {
        reveal_with_fuel(carried, 6);
    }
}

proof fn lemma_bounded_product(x: int, y: int)
    requires
        0 <= x < FACTOR_BOUND,
        0 <= y < FACTOR_BOUND,
    ensures
        0 <= x * y < 0x1000_0000_0000_0000_0000_0000_0000,
{
    assert(0 <= x * y < 0x1000_0000_0000_0000_0000_0000_0000) by (nonlinear_arith)
        requires
            0 <= x < 0x40_0000_0000_0000,
            0 <= y < 0x40_0000_0000_0000,
    ;
}

/// Factors can be multiplied without loss where the product of the bounds of
/// their limbs is at most 2^108 and the second factor can be taken 19-fold.
pub proof fn law_product_of_uneven_factors(
    a: Seq<int>,
    b: Seq<int>,
    first: int,
    second: int,
)
    requires
        below(a, first),
        below(b, second),
        0 < first,
        0 < second,
        first * second <= 0x1000_0000_0000_0000_0000_0000_0000,
        first <= 0x1_0000_0000_0000_0000,
        19 * second <= 0x1_0000_0000_0000_0000,
    ensures
        can_multiply(a, b),
        carries_whole(a, b),
        congruent(value(product(a, b)), value(a) * value(b)),
{
    let r = RADIX as int;
    reveal_with_fuel(carried, 6);
    assert forall|i: int, j: int| 0 <= i < 5 && 0 <= j < 5 implies 0 <= #[trigger] (a[i] * b[j])
        < 0x1000_0000_0000_0000_0000_0000_0000 by {
        let x = a[i];
        let y = b[j];
        assert(0 <= x * y < first * second) by (nonlinear_arith)
            requires
                0 <= x < first,
                0 <= y < second,
        ;
    }
    assert forall|k: int| 0 <= k < 5 implies {
        &&& 0 <= #[trigger] carried(a, b, k) <= u128::MAX
        &&& carried(a, b, k) / r < 0x1_0000_0000_0000_0000
    } by {}
    lemma_whole_carry(carried(a, b, 4));
    assert(folded(a, b) <= u64::MAX);
    law_product(a, b);
}

/// Factors with limbs below 2^54 can be multiplied, and no carry is lost; the
/// product has limbs below 2^52.
pub proof fn law_product_bounds(a: Seq<int>, b: Seq<int>)
    requires
        below(a, FACTOR_BOUND as int),
        below(b, FACTOR_BOUND as int),
    ensures
        can_multiply(a, b),
        carries_whole(a, b),
        below(product(a, b), PRODUCT_BOUND as int),
{
    let r = RADIX as int;
    reveal_with_fuel(carried, 6);
    assert forall|i: int, j: int| 0 <= i < 5 && 0 <= j < 5 implies 0 <= #[trigger] (a[i] * b[j])
        < 0x1000_0000_0000_0000_0000_0000_0000 by {
        lemma_bounded_product(a[i], b[j]);
    }
    let d0 = carried(a, b, 0);
    let d1 = carried(a, b, 1);
    let d2 = carried(a, b, 2);
    let d3 = carried(a, b, 3);
    let d4 = carried(a, b, 4);
    assert forall|k: int| 0 <= k < 5 implies {
        &&& 0 <= #[trigger] carried(a, b, k) <= u128::MAX
        &&& carried(a, b, k) / r < 0x1_0000_0000_0000_0000
    } by {}
    lemma_whole_carry(d4);
    assert(folded(a, b) <= u64::MAX);
}

} // verus!
