//! What limbs stand for, written out, and what a step computes from the values of
//! its points.

use vstd::arithmetic::div_mod::*;
use vstd::prelude::*;

use crate::edwards::{
    added_point, checksum_after, completed_sum, first_point, law_step_bounds, lemma_sum_below,
    perturbed, point_after, point_below, prepared_below, seeded, stepped, Coordinates,
    Prepared, SEED_MULTIPLIER,
};
use crate::edwards_laws::{
    lemma_completed_below, lemma_difference, lemma_product, lemma_sum,
};
use crate::field::{
    below, can_multiply, congruent, difference, fits, limbs_of, prime, product, raised_difference,
    reduced, sum, value, FACTOR_BOUND, PRODUCT_BOUND,
};
use crate::field_laws::{law_difference_bounds, lemma_congruent};

verus! {

/// The modulus is 2^255 - 19, and limbs have the weights 1, 2^51, 2^102, 2^153
/// and 2^204.
pub proof fn law_value(x: Seq<int>)
    ensures
        prime() == 0x8000000000000000000000000000000000000000000000000000000000000000int - 19,
        value(x) == x[0] + 0x8000000000000int * x[1] + 0x40000000000000000000000000int * x[2] + 0x200000000000000000000000000000000000000int * x[3] + 0x1000000000000000000000000000000000000000000000000000int * x[4],
{
}

/// Integers are congruent exactly if they differ by a multiple of the modulus.
pub proof fn law_congruent(a: int, b: int, k: int)
    ensures
        a - b == k * prime() ==> congruent(a, b),
        congruent(a, b) ==> (a - b) % prime() == 0,
{
    if a - b == k * prime() {
        assert(k * prime() == prime() * k) by (nonlinear_arith);
        lemma_congruent(a, b, k);
    }
    if congruent(a, b) {
        lemma_sub_mod_noop(a, b, prime());
        assert(a % prime() - b % prime() == 0);
    }
}

/// The limbs of an element are its five words, and the bounds speak of each of
/// them.
pub proof fn law_limbs(words: Seq<u64>, x: Seq<int>, bound: int)
    ensures
        limbs_of(words).len() == 5,
        forall|i: int| 0 <= i < 5 ==> #[trigger] limbs_of(words)[i] == words[i],
        fits(x) <==> 0 <= x[0] < 0x1_0000_0000_0000_0000 && 0 <= x[1] < 0x1_0000_0000_0000_0000 && 0
            <= x[2] < 0x1_0000_0000_0000_0000 && 0 <= x[3] < 0x1_0000_0000_0000_0000 && 0 <= x[4]
            < 0x1_0000_0000_0000_0000,
        below(x, bound) <==> x.len() == 5 && 0 <= x[0] < bound && 0 <= x[1] < bound && 0 <= x[2]
            < bound && 0 <= x[3] < bound && 0 <= x[4] < bound,
{
}

/// The bounds of points speak of each of their coordinates.
pub proof fn law_point_bounds(p: Coordinates, q: Prepared, bound: int)
    ensures
        point_below(p, bound) <==> below(p.x, bound) && below(p.y, bound) && below(p.z, bound)
            && below(p.t, bound),
        prepared_below(q, bound) <==> below(q.y_plus_x, bound) && below(q.y_minus_x, bound)
            && below(q.xy2d, bound),
        PRODUCT_BOUND == 0x10_0000_0000_0000,
        FACTOR_BOUND == 0x40_0000_0000_0000,
{
}

/// A sum adds limb by limb. A difference raises each limb by 16 times that of
/// the modulus before it subtracts. Carrying keeps 51 bits of each limb and
/// hands the others on.
pub proof fn law_limbwise(a: Seq<int>, b: Seq<int>, i: int)
    requires
        0 <= i < 5,
    ensures
        sum(a, b).len() == 5,
        sum(a, b)[i] == a[i] + b[i],
        raised_difference(a, b)[i] - a[i] + b[i] == if i == 0 {
            16 * (0x7_ffff_ffff_ffffint - 18)
        } else {
            16 * 0x7_ffff_ffff_ffffint
        },
        reduced(a).len() == 5,
        i > 0 ==> reduced(a)[i] - a[i - 1] / 0x8_0000_0000_0000 == a[i] % 0x8_0000_0000_0000,
        reduced(a)[0] - 19 * (a[4] / 0x8_0000_0000_0000) == a[0] % 0x8_0000_0000_0000,
        difference(a, b) == reduced(raised_difference(a, b)),
{
}

/// The limbs of a product have 51 bits, but for the second, to which at most 13
/// bits are carried.
pub proof fn law_product_limbs(a: Seq<int>, b: Seq<int>)
    requires
        fits(a),
        fits(b),
        can_multiply(a, b),
    ensures
        product(a, b).len() == 5,
        0 <= product(a, b)[0] < 0x8_0000_0000_0000,
        0 <= product(a, b)[1] < 0x8_0000_0000_0000 + 0x2000,
        0 <= product(a, b)[2] < 0x8_0000_0000_0000,
        0 <= product(a, b)[3] < 0x8_0000_0000_0000,
        0 <= product(a, b)[4] < 0x8_0000_0000_0000,
{
}

/// A step, in the values of its points: with the sums and differences of the
/// coordinates multiplied by the prepared ones, the four coordinates are the
/// products below.
pub proof fn law_step_formula(p: Coordinates, q: Prepared)
    requires
        point_below(p, PRODUCT_BOUND as int),
        prepared_below(q, FACTOR_BOUND as int),
    ensures
        ({
            let x = value(p.x);
            let y = value(p.y);
            let z = value(p.z);
            let a = (y + x) * value(q.y_plus_x);
            let b = (y - x) * value(q.y_minus_x);
            let c = value(p.t) * value(q.xy2d);
            &&& congruent(value(completed_sum(p, q).x), a - b)
            &&& congruent(value(completed_sum(p, q).y), a + b)
            &&& congruent(value(completed_sum(p, q).z), z + z + c)
            &&& congruent(value(completed_sum(p, q).t), z + z - c)
            &&& congruent(value(stepped(p, q).x), (a - b) * (z + z - c))
            &&& congruent(value(stepped(p, q).y), (a + b) * (z + z + c))
            &&& congruent(value(stepped(p, q).z), (z + z + c) * (z + z - c))
            &&& congruent(value(stepped(p, q).t), (a - b) * (a + b))
        }),
{
    reveal(stepped);
    let x = value(p.x);
    let y = value(p.y);
    let z = value(p.z);
    let a = (y + x) * value(q.y_plus_x);
    let b = (y - x) * value(q.y_minus_x);
    let c = value(p.t) * value(q.xy2d);
    let s = completed_sum(p, q);
    let plus = product(sum(p.y, p.x), q.y_plus_x);
    let minus = product(difference(p.y, p.x), q.y_minus_x);
    let twist = product(p.t, q.xy2d);
    lemma_sum_below(p.y, p.x, PRODUCT_BOUND as int, PRODUCT_BOUND as int);
    law_difference_bounds(p.y, p.x);
    lemma_sum(p.y, p.x, y, x);
    lemma_difference(p.y, p.x, y, x);
    lemma_product(sum(p.y, p.x), q.y_plus_x, y + x, value(q.y_plus_x));
    lemma_product(difference(p.y, p.x), q.y_minus_x, y - x, value(q.y_minus_x));
    lemma_product(p.t, q.xy2d, value(p.t), value(q.xy2d));
    lemma_difference(plus, minus, a, b);
    lemma_sum(plus, minus, a, b);
    lemma_sum(p.z, p.z, z, z);
    lemma_sum(sum(p.z, p.z), twist, z + z, c);
    lemma_difference(sum(p.z, p.z), twist, z + z, c);
    lemma_completed_below(p, q);
    lemma_product(s.x, s.t, a - b, z + z - c);
    lemma_product(s.y, s.z, a + b, z + z + c);
    lemma_product(s.z, s.t, z + z + c, z + z - c);
    lemma_product(s.x, s.y, a - b, a + b);
}

/// The elements of the benchmark are seeded with one to seven: each limb is the
/// seed times the multiplier, whose low bits are turned by the number of the
/// limb, modulo 2^51.
pub proof fn law_seeded(seed: u64, i: int)
    requires
        0 <= i < 5,
    ensures
        SEED_MULTIPLIER == 0x9e37_79b9_7f4a_7c15,
        seeded(seed).len() == 5,
        seeded(seed)[i] == (seed * (0x9e37_79b9_7f4a_7c15u64 ^ (i as u64)))
            % 0x8_0000_0000_0000,
        first_point().x == seeded(1),
        first_point().y == seeded(2),
        first_point().z == seeded(3),
        first_point().t == seeded(4),
        added_point().y_plus_x == seeded(5),
        added_point().y_minus_x == seeded(6),
        added_point().xy2d == seeded(7),
{
}

/// In each round the lowest limb of `x` moves on by one in odd rounds, modulo
/// 2^51, and nothing else changes before the step.
pub proof fn law_perturbed(p: Coordinates, round: int)
    requires
        p.x.len() == 5,
        0 <= p.x[0],
        0 <= round,
    ensures
        perturbed(p, 2 * round).x[0] == p.x[0] % 0x8_0000_0000_0000,
        perturbed(p, 2 * round + 1).x[0] == (p.x[0] + 1) % 0x8_0000_0000_0000,
        perturbed(p, round).x.skip(1) == p.x.skip(1),
        perturbed(p, round).x.len() == 5,
        perturbed(p, round).y == p.y,
        perturbed(p, round).z == p.z,
        perturbed(p, round).t == p.t,
{
    assert(perturbed(p, round).x.skip(1) =~= p.x.skip(1));
}

proof fn lemma_seeded_below(seed: u64)
    ensures
        below(seeded(seed), 0x8_0000_0000_0000),
{
    let x = seeded(seed);
    assert(0 <= x[0] < 0x8_0000_0000_0000 && 0 <= x[1] < 0x8_0000_0000_0000);
    assert(0 <= x[2] < 0x8_0000_0000_0000 && 0 <= x[3] < 0x8_0000_0000_0000);
    assert(0 <= x[4] < 0x8_0000_0000_0000);
}

/// The rounds of the benchmark are defined for ever: from the first point on,
/// each is a step from the one before it, and the checksums of two rounds
/// differ by four of the limbs.
pub proof fn law_rounds(rounds: int)
    requires
        0 <= rounds,
    ensures
        point_after(0) == first_point(),
        checksum_after(0) == 0,
        point_below(point_after(rounds), PRODUCT_BOUND as int),
        prepared_below(added_point(), FACTOR_BOUND as int),
        point_after(rounds + 1) == stepped(perturbed(point_after(rounds), rounds), added_point()),
        checksum_after(rounds + 1) ^ checksum_after(rounds) == (point_after(rounds + 1).x[0] as u64)
            ^ (point_after(rounds + 1).y[1] as u64) ^ (point_after(rounds + 1).z[2] as u64) ^ (
        point_after(rounds + 1).t[3] as u64),
    decreases rounds,
{
    lemma_seeded_below(1);
    lemma_seeded_below(2);
    lemma_seeded_below(3);
    lemma_seeded_below(4);
    lemma_seeded_below(5);
    lemma_seeded_below(6);
    lemma_seeded_below(7);
    if rounds > 0 {
        law_rounds(rounds - 1);
        let before = point_after(rounds - 1);
        let moved = perturbed(before, rounds - 1);
        assert forall|k: int| 0 <= k < 5 implies 0 <= #[trigger] moved.x[k] < PRODUCT_BOUND by {
            assert(before.x[k] < PRODUCT_BOUND);
        }
        law_step_bounds(moved, added_point());
    }
    let a = checksum_after(rounds);
    let next = point_after(rounds + 1);
    let m = (next.x[0] as u64) ^ (next.y[1] as u64) ^ (next.z[2] as u64) ^ (next.t[3] as u64);
    assert((a ^ m) ^ a == m) by (bit_vector);
    assert(checksum_after(rounds + 1) == a ^ m);
}

} // verus!
