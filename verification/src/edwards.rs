//! Point addition on the twisted Edwards curve, and the benchmark that chains
//! it.

use vstd::arithmetic::div_mod::*;
use vstd::prelude::*;

use crate::field::{
    below, can_multiply, can_subtract, difference, fits, product, sum, Fe, FACTOR_BOUND,
    MASK51, PRODUCT_BOUND, RADIX,
};
use crate::field_laws::{law_difference_bounds, law_product_bounds};

verus! {

/// A point `(x / z, y / z)` with `t / z` their product.
#[derive(Clone, Copy, Debug)]
pub struct EdwardsPoint {
    /// The first coordinate over `z`.
    pub x: Fe,
    /// The second coordinate over `z`.
    pub y: Fe,
    /// The common denominator.
    pub z: Fe,
    /// The product of the coordinates over `z`.
    pub t: Fe,
}

/// An affine point `(x, y)`, prepared for addition.
#[derive(Clone, Copy, Debug)]
pub struct AffineNielsPoint {
    /// `y + x`.
    pub y_plus_x: Fe,
    /// `y - x`.
    pub y_minus_x: Fe,
    /// `2 * d * x * y`, where `d` is the curve's constant.
    pub xy2d: Fe,
}

/// A point `(x / z, y / t)`.
#[derive(Clone, Copy, Debug)]
pub struct CompletedPoint {
    /// The first coordinate over `z`.
    pub x: Fe,
    /// The second coordinate over `t`.
    pub y: Fe,
    /// The denominator of the first coordinate.
    pub z: Fe,
    /// The denominator of the second coordinate.
    pub t: Fe,
}

/// The limbs of the four coordinates of an [`EdwardsPoint`] or a
/// [`CompletedPoint`].
#[verifier::ext_equal]
pub struct Coordinates {
    /// The limbs of `x`.
    pub x: Seq<int>,
    /// The limbs of `y`.
    pub y: Seq<int>,
    /// The limbs of `z`.
    pub z: Seq<int>,
    /// The limbs of `t`.
    pub t: Seq<int>,
}

/// The limbs of the three parts of an [`AffineNielsPoint`].
#[verifier::ext_equal]
pub struct Prepared {
    /// The limbs of `y + x`.
    pub y_plus_x: Seq<int>,
    /// The limbs of `y - x`.
    pub y_minus_x: Seq<int>,
    /// The limbs of `2 * d * x * y`.
    pub xy2d: Seq<int>,
}

impl View for EdwardsPoint {
    type V = Coordinates;

    open spec fn view(&self) -> Coordinates {
        Coordinates { x: self.x@, y: self.y@, z: self.z@, t: self.t@ }
    }
}

impl View for CompletedPoint {
    type V = Coordinates;

    open spec fn view(&self) -> Coordinates {
        Coordinates { x: self.x@, y: self.y@, z: self.z@, t: self.t@ }
    }
}

impl View for AffineNielsPoint {
    type V = Prepared;

    open spec fn view(&self) -> Prepared {
        Prepared { y_plus_x: self.y_plus_x@, y_minus_x: self.y_minus_x@, xy2d: self.xy2d@ }
    }
}

/// The product of the sums.
pub open spec fn plus_product(p: Coordinates, q: Prepared) -> Seq<int> {
    product(sum(p.y, p.x), q.y_plus_x)
}

/// The product of the differences.
pub open spec fn minus_product(p: Coordinates, q: Prepared) -> Seq<int> {
    product(difference(p.y, p.x), q.y_minus_x)
}

/// The completed sum of two points, limb by limb.
pub open spec fn completed_sum(p: Coordinates, q: Prepared) -> Coordinates {
    let twice_z = sum(p.z, p.z);
    let twist = product(p.t, q.xy2d);
    Coordinates {
        x: difference(plus_product(p, q), minus_product(p, q)),
        y: sum(plus_product(p, q), minus_product(p, q)),
        z: sum(twice_z, twist),
        t: difference(twice_z, twist),
    }
}

/// Whether the completed sum can be computed within machine integers.
pub open spec fn can_complete(p: Coordinates, q: Prepared) -> bool {
    let twice_z = sum(p.z, p.z);
    let twist = product(p.t, q.xy2d);
    &&& fits(sum(p.y, p.x))
    &&& can_subtract(p.y, p.x)
    &&& can_multiply(sum(p.y, p.x), q.y_plus_x)
    &&& can_multiply(difference(p.y, p.x), q.y_minus_x)
    &&& can_multiply(p.t, q.xy2d)
    &&& fits(twice_z)
    &&& can_subtract(plus_product(p, q), minus_product(p, q))
    &&& fits(sum(plus_product(p, q), minus_product(p, q)))
    &&& fits(sum(twice_z, twist))
    &&& can_subtract(twice_z, twist)
}

/// A completed point over one common denominator, limb by limb.
pub open spec fn extended(p: Coordinates) -> Coordinates {
    Coordinates {
        x: product(p.x, p.t),
        y: product(p.y, p.z),
        z: product(p.z, p.t),
        t: product(p.x, p.y),
    }
}

/// Whether a completed point can be brought over one denominator within
/// machine integers.
pub open spec fn can_extend(p: Coordinates) -> bool {
    &&& can_multiply(p.x, p.t)
    &&& can_multiply(p.y, p.z)
    &&& can_multiply(p.z, p.t)
    &&& can_multiply(p.x, p.y)
}

/// The sum of two points, limb by limb.
#[verifier::opaque]
pub open spec fn stepped(p: Coordinates, q: Prepared) -> Coordinates {
    extended(completed_sum(p, q))
}

/// Whether a step can be computed within machine integers.
pub open spec fn can_step(p: Coordinates, q: Prepared) -> bool {
    can_complete(p, q) && can_extend(completed_sum(p, q))
}

/// Whether all coordinates have limbs below `bound`.
pub open spec fn point_below(p: Coordinates, bound: int) -> bool {
    below(p.x, bound) && below(p.y, bound) && below(p.z, bound) && below(p.t, bound)
}

/// Whether all parts have limbs below `bound`.
pub open spec fn prepared_below(q: Prepared, bound: int) -> bool {
    below(q.y_plus_x, bound) && below(q.y_minus_x, bound) && below(q.xy2d, bound)
}

/// The bounds of two summands add up.
pub proof fn lemma_sum_below(a: Seq<int>, b: Seq<int>, first: int, second: int)
    requires
        below(a, first),
        below(b, second),
    ensures
        below(sum(a, b), first + second),
{
    assert(0 <= a[0] < first && 0 <= a[1] < first && 0 <= a[2] < first);
    assert(0 <= a[3] < first && 0 <= a[4] < first);
    assert(0 <= b[0] < second && 0 <= b[1] < second && 0 <= b[2] < second);
    assert(0 <= b[3] < second && 0 <= b[4] < second);
}

/// A step from a point with limbs below 2^52, by a prepared point with limbs
/// below 2^54, is defined and ends in a point with limbs below 2^52: steps can
/// be chained without end.
pub proof fn law_step_bounds(p: Coordinates, q: Prepared)
    requires
        point_below(p, PRODUCT_BOUND as int),
        prepared_below(q, FACTOR_BOUND as int),
    ensures
        can_step(p, q),
        point_below(stepped(p, q), PRODUCT_BOUND as int),
{
    reveal(stepped);
    let b = PRODUCT_BOUND as int;
    lemma_sum_below(p.y, p.x, b, b);
    law_difference_bounds(p.y, p.x);
    law_product_bounds(sum(p.y, p.x), q.y_plus_x);
    law_product_bounds(difference(p.y, p.x), q.y_minus_x);
    law_product_bounds(p.t, q.xy2d);
    let pp = plus_product(p, q);
    let mm = minus_product(p, q);
    let twice_z = sum(p.z, p.z);
    let twist = product(p.t, q.xy2d);
    lemma_sum_below(p.z, p.z, b, b);
    lemma_sum_below(pp, mm, b, b);
    law_difference_bounds(pp, mm);
    lemma_sum_below(twice_z, twist, b + b, b);
    law_difference_bounds(twice_z, twist);
    let c = completed_sum(p, q);
    law_product_bounds(c.x, c.t);
    law_product_bounds(c.y, c.z);
    law_product_bounds(c.z, c.t);
    law_product_bounds(c.x, c.y);
}

/// Adds a prepared point.
#[inline(never)]
pub fn point_add(p: &EdwardsPoint, q: &AffineNielsPoint) -> (r: CompletedPoint)
    requires
        can_complete(p@, q@),
    ensures
        r@ == completed_sum(p@, q@),
        ({
            let plus = product(sum(p.y@, p.x@), q.y_plus_x@);
            let minus = product(difference(p.y@, p.x@), q.y_minus_x@);
            let twist = product(p.t@, q.xy2d@);
            &&& r.x@ == difference(plus, minus)
            &&& r.y@ == sum(plus, minus)
            &&& r.z@ == sum(sum(p.z@, p.z@), twist)
            &&& r.t@ == difference(sum(p.z@, p.z@), twist)
        }),
{
    let y_plus_x = crate::field::add(&p.y, &p.x);
    let y_minus_x = crate::field::sub(&p.y, &p.x);
    let pp = crate::field::mul(&y_plus_x, &q.y_plus_x);
    let mm = crate::field::mul(&y_minus_x, &q.y_minus_x);
    let txy2d = crate::field::mul(&p.t, &q.xy2d);
    let z2 = crate::field::add(&p.z, &p.z);
    CompletedPoint {
        x: crate::field::sub(&pp, &mm),
        y: crate::field::add(&pp, &mm),
        z: crate::field::add(&z2, &txy2d),
        t: crate::field::sub(&z2, &txy2d),
    }
}

/// Brings a completed point over one common denominator.
#[inline(always)]
pub fn as_extended(p: &CompletedPoint) -> (r: EdwardsPoint)
    requires
        can_extend(p@),
    ensures
        r@ == extended(p@),
        r.x@ == product(p.x@, p.t@),
        r.y@ == product(p.y@, p.z@),
        r.z@ == product(p.z@, p.t@),
        r.t@ == product(p.x@, p.y@),
{
    EdwardsPoint {
        x: crate::field::mul(&p.x, &p.t),
        y: crate::field::mul(&p.y, &p.z),
        z: crate::field::mul(&p.z, &p.t),
        t: crate::field::mul(&p.x, &p.y),
    }
}

/// Replaces a point by its sum with a prepared point.
#[inline(never)]
pub fn step(p: &mut EdwardsPoint, q: &AffineNielsPoint)
    requires
        can_step(old(p)@, q@),
    ensures
        final(p)@ == stepped(old(p)@, q@),
        final(p).x@ == product(
            completed_sum(old(p)@, q@).x,
            completed_sum(old(p)@, q@).t,
        ),
        final(p).y@ == product(
            completed_sum(old(p)@, q@).y,
            completed_sum(old(p)@, q@).z,
        ),
        final(p).z@ == product(
            completed_sum(old(p)@, q@).z,
            completed_sum(old(p)@, q@).t,
        ),
        final(p).t@ == product(
            completed_sum(old(p)@, q@).x,
            completed_sum(old(p)@, q@).y,
        ),
{
    proof {
        reveal(stepped);
    }
    *p = as_extended(&point_add(p, q));
}

/// The odd constant that spreads seeds over the limbs.
pub const SEED_MULTIPLIER: u64 = 0x9e37_79b9_7f4a_7c15;

/// One limb of the element that a seed gives.
pub open spec fn seeded_limb(seed: u64, i: u64) -> int {
    (seed * (SEED_MULTIPLIER ^ i)) % (RADIX as int)
}

/// The limbs of the element that a seed gives.
pub open spec fn seeded(seed: u64) -> Seq<int> {
    seq![
        seeded_limb(seed, 0),
        seeded_limb(seed, 1),
        seeded_limb(seed, 2),
        seeded_limb(seed, 3),
        seeded_limb(seed, 4),
    ]
}

proof fn lemma_low_bits(x: int)
    ensures
        (x % 0x1_0000_0000_0000_0000) % (RADIX as int) == x % (RADIX as int),
{
    lemma_mod_mod(x, RADIX as int, 0x2000);
}

fn seed_limb(seed: u64, i: u64) -> (limb: u64)
    ensures
        limb == seeded_limb(seed, i),
{
    let spread: u64 = seed.wrapping_mul(SEED_MULTIPLIER ^ i);
    proof {
        assert(spread & 0x7_ffff_ffff_ffff == spread % 0x8_0000_0000_0000) by (bit_vector);
        lemma_low_bits(seed * (SEED_MULTIPLIER ^ i));
    }
    spread & MASK51
}

/// The element that a seed gives.
pub fn fe(seed: u64) -> (r: Fe)
    ensures
        r@ == seeded(seed),
{
    Fe(
        [
            seed_limb(seed, 0),
            seed_limb(seed, 1),
            seed_limb(seed, 2),
            seed_limb(seed, 3),
            seed_limb(seed, 4),
        ],
    )
}

/// The point that the benchmark starts from.
pub open spec fn first_point() -> Coordinates {
    Coordinates { x: seeded(1), y: seeded(2), z: seeded(3), t: seeded(4) }
}

/// The point that the benchmark adds.
pub open spec fn added_point() -> Prepared {
    Prepared { y_plus_x: seeded(5), y_minus_x: seeded(6), xy2d: seeded(7) }
}

/// The point with the lowest limb of `x` moved on by the parity of the round
/// and cut to 51 bits.
pub open spec fn perturbed(p: Coordinates, round: int) -> Coordinates {
    Coordinates { x: p.x.update(0, (p.x[0] + round % 2) % (RADIX as int)), ..p }
}

/// The point after a number of rounds.
pub open spec fn point_after(rounds: int) -> Coordinates
    decreases rounds,
{
    if rounds <= 0 {
        first_point()
    } else {
        stepped(perturbed(point_after(rounds - 1), rounds - 1), added_point())
    }
}

/// What a point adds to the checksum.
pub open spec fn mixed(p: Coordinates) -> u64 {
    (p.x[0] as u64) ^ (p.y[1] as u64) ^ (p.z[2] as u64) ^ (p.t[3] as u64)
}

/// The checksum after a number of rounds.
pub open spec fn checksum_after(rounds: int) -> u64
    decreases rounds,
{
    if rounds <= 0 {
        0
    } else {
        checksum_after(rounds - 1) ^ mixed(point_after(rounds))
    }
}

/// One round of the benchmark.
fn round(p: &mut EdwardsPoint, q: &AffineNielsPoint, i: u64)
    requires
        point_below(old(p)@, PRODUCT_BOUND as int),
        prepared_below(q@, FACTOR_BOUND as int),
    ensures
        final(p)@ == stepped(perturbed(old(p)@, i as int), q@),
        point_below(final(p)@, PRODUCT_BOUND as int),
{
    let low: u64 = p.x.0[0].wrapping_add(i & 1);
    proof {
        assert(i & 1 == i % 2) by (bit_vector);
        assert(low & 0x7_ffff_ffff_ffff == low % 0x8_0000_0000_0000) by (bit_vector);
        lemma_low_bits(p@.x[0] + i % 2);
    }
    p.x = Fe([low & MASK51, p.x.0[1], p.x.0[2], p.x.0[3], p.x.0[4]]);
    proof {
        assert(p@.x =~= perturbed(old(p)@, i as int).x);
        assert forall|k: int| 0 <= k < 5 implies 0 <= #[trigger] p@.x[k] < PRODUCT_BOUND by {
            assert(old(p)@.x[k] < PRODUCT_BOUND);
        }
        law_step_bounds(p@, q@);
    }
    step(p, q);
}

/// Chains the given number of steps from the fixed points and returns the
/// checksum of the points on the way.
pub fn run_steps(iterations: u64) -> (checksum: u64)
    ensures
        checksum == checksum_after(iterations as int),
{
    let mut p = EdwardsPoint { x: fe(1), y: fe(2), z: fe(3), t: fe(4) };
    let q = AffineNielsPoint { y_plus_x: fe(5), y_minus_x: fe(6), xy2d: fe(7) };
    let mut checksum: u64 = 0;
    let mut i: u64 = 0;
    while i < iterations
        invariant
            i <= iterations,
            p@ == point_after(i as int),
            q@ == added_point(),
            point_below(p@, PRODUCT_BOUND as int),
            prepared_below(q@, FACTOR_BOUND as int),
            checksum == checksum_after(i as int),
        decreases iterations - i,
    {
        round(&mut p, &q, i);
        i += 1;
        assert(p@ == point_after(i as int));
        checksum ^= p.x.0[0] ^ p.y.0[1] ^ p.z.0[2] ^ p.t.0[3];
    }
    checksum
}

} // verus!
