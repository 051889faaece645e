//! Arithmetic modulo 2^255 - 19 on five limbs of 51 bits.
//!
//! A field element is viewed as its five limbs. Limbs may exceed 51 bits
//! between reductions, so one residue has many representations; the contracts
//! fix the limbs, and the laws relate them to the residue.

use vstd::prelude::*;

verus! {

/// The low 51 bits of a limb.
pub const MASK51: u64 = 0x7_ffff_ffff_ffff;

/// 2^51, the weight of one limb relative to the limb below it.
pub const RADIX: u64 = 0x8_0000_0000_0000;

/// 16 times the lowest limb of 2^255 - 19.
pub const LOW_OFFSET: u64 = 36_028_797_018_963_664;

/// 16 times each other limb of 2^255 - 19.
pub const HIGH_OFFSET: u64 = 36_028_797_018_963_952;

/// 2^54, below which the limbs of two factors are multiplied without loss.
pub const FACTOR_BOUND: u64 = 0x40_0000_0000_0000;

/// 2^52, below which the limbs of a product stay.
pub const PRODUCT_BOUND: u64 = 0x10_0000_0000_0000;

/// A field element.
#[derive(Clone, Copy, Debug)]
pub struct Fe(pub [u64; 5]);

impl View for Fe {
    type V = Seq<int>;

    open spec fn view(&self) -> Seq<int> {
        limbs_of(self.0@)
    }
}

/// The limbs as integers.
pub open spec fn limbs_of(words: Seq<u64>) -> Seq<int> {
    seq![
        words[0] as int,
        words[1] as int,
        words[2] as int,
        words[3] as int,
        words[4] as int,
    ]
}

/// The field's modulus, 2^255 - 19.
pub open spec fn prime() -> int {
    0x7fff_ffff_ffff_ffff_ffff_ffff_ffff_ffff_ffff_ffff_ffff_ffff_ffff_ffff_ffff_ffedint
}

/// The integer that limbs stand for.
pub open spec fn value(x: Seq<int>) -> int {
    x[0] + 0x8_0000_0000_0000 * (x[1] + 0x8_0000_0000_0000 * (x[2] + 0x8_0000_0000_0000 * (x[3]
        + 0x8_0000_0000_0000 * x[4])))
}

/// Whether two integers stand for the same residue.
pub open spec fn congruent(a: int, b: int) -> bool {
    a % prime() == b % prime()
}

/// Whether every limb is a machine word.
pub open spec fn fits(x: Seq<int>) -> bool {
    forall|i: int| 0 <= i < 5 ==> 0 <= #[trigger] x[i] <= u64::MAX
}

/// Whether every limb is below `bound`.
pub open spec fn below(x: Seq<int>, bound: int) -> bool {
    &&& x.len() == 5
    &&& forall|i: int| 0 <= i < 5 ==> 0 <= #[trigger] x[i] < bound
}

/// Limbwise sum.
pub open spec fn sum(a: Seq<int>, b: Seq<int>) -> Seq<int> {
    seq![a[0] + b[0], a[1] + b[1], a[2] + b[2], a[3] + b[3], a[4] + b[4]]
}

/// The limbs raised by 16 times the modulus.
pub open spec fn raised(a: Seq<int>) -> Seq<int> {
    seq![
        a[0] + LOW_OFFSET,
        a[1] + HIGH_OFFSET,
        a[2] + HIGH_OFFSET,
        a[3] + HIGH_OFFSET,
        a[4] + HIGH_OFFSET,
    ]
}

/// Limbwise difference, raised by 16 times the modulus.
pub open spec fn raised_difference(a: Seq<int>, b: Seq<int>) -> Seq<int> {
    let r = raised(a);
    seq![r[0] - b[0], r[1] - b[1], r[2] - b[2], r[3] - b[3], r[4] - b[4]]
}

/// Every limb keeps its low 51 bits and hands the rest to the next; what the
/// last one hands on returns to the first, 19-fold.
pub open spec fn reduced(x: Seq<int>) -> Seq<int> {
    seq![
        x[0] % (RADIX as int) + 19 * (x[4] / (RADIX as int)),
        x[1] % (RADIX as int) + x[0] / (RADIX as int),
        x[2] % (RADIX as int) + x[1] / (RADIX as int),
        x[3] % (RADIX as int) + x[2] / (RADIX as int),
        x[4] % (RADIX as int) + x[3] / (RADIX as int),
    ]
}

/// The limbs of a difference.
pub open spec fn difference(a: Seq<int>, b: Seq<int>) -> Seq<int> {
    reduced(raised_difference(a, b))
}

/// Whether a difference can be taken within machine words.
pub open spec fn can_subtract(a: Seq<int>, b: Seq<int>) -> bool {
    fits(raised(a)) && fits(raised_difference(a, b))
}

/// The sum of the limb products of weight `k` limbs, with those of weight
/// `k + 5` limbs folded in 19-fold.
pub open spec fn column(a: Seq<int>, b: Seq<int>, k: int) -> int {
    if k == 0 {
        a[0] * b[0] + 19 * (a[4] * b[1] + a[3] * b[2] + a[2] * b[3] + a[1] * b[4])
    } else if k == 1 {
        a[1] * b[0] + a[0] * b[1] + 19 * (a[4] * b[2] + a[3] * b[3] + a[2] * b[4])
    } else if k == 2 {
        a[2] * b[0] + a[1] * b[1] + a[0] * b[2] + 19 * (a[4] * b[3] + a[3] * b[4])
    } else if k == 3 {
        a[3] * b[0] + a[2] * b[1] + a[1] * b[2] + a[0] * b[3] + 19 * (a[4] * b[4])
    } else {
        a[4] * b[0] + a[3] * b[1] + a[2] * b[2] + a[1] * b[3] + a[0] * b[4]
    }
}

/// The machine word that a column hands to the next.
pub open spec fn carry(c: int) -> int {
    (c / (RADIX as int)) % 0x1_0000_0000_0000_0000
}

/// A column with what the columns below it hand on.
pub open spec fn carried(a: Seq<int>, b: Seq<int>, k: int) -> int
    decreases k,
{
    if k <= 0 {
        column(a, b, 0)
    } else {
        column(a, b, k) + carry(carried(a, b, k - 1))
    }
}

/// The lowest limb of a product, with what the last column hands on folded in
/// 19-fold.
pub open spec fn folded(a: Seq<int>, b: Seq<int>) -> int {
    carried(a, b, 0) % (RADIX as int) + 19 * carry(carried(a, b, 4))
}

/// The limbs of a product.
pub open spec fn product(a: Seq<int>, b: Seq<int>) -> Seq<int> {
    seq![
        folded(a, b) % (RADIX as int),
        carried(a, b, 1) % (RADIX as int) + folded(a, b) / (RADIX as int),
        carried(a, b, 2) % (RADIX as int),
        carried(a, b, 3) % (RADIX as int),
        carried(a, b, 4) % (RADIX as int),
    ]
}

/// Whether a product can be computed within machine integers.
pub open spec fn can_multiply(a: Seq<int>, b: Seq<int>) -> bool {
    &&& forall|i: int| 1 <= i < 5 ==> 19 * #[trigger] b[i] <= u64::MAX
    &&& forall|k: int| 0 <= k < 5 ==> #[trigger] carried(a, b, k) <= u128::MAX
    &&& folded(a, b) <= u64::MAX
}

/// Whether no column loses anything of what it hands on.
pub open spec fn carries_whole(a: Seq<int>, b: Seq<int>) -> bool {
    forall|k: int|
        0 <= k < 5 ==> #[trigger] carried(a, b, k) / (RADIX as int) < 0x1_0000_0000_0000_0000
}

proof fn lemma_split_word(x: u64)
    ensures
        x >> 51u64 == x / RADIX,
        x & MASK51 == x % RADIX,
{
    assert(x >> 51u64 == x / 0x8_0000_0000_0000) by (bit_vector);
    assert(x & 0x7_ffff_ffff_ffff == x % 0x8_0000_0000_0000) by (bit_vector);
}

proof fn lemma_split_column(c: u128)
    ensures
        ((c >> 51u128) as u64) as int == carry(c as int),
        (c as u64) & MASK51 == c % (RADIX as u128),
{
    assert(((c >> 51u128) as u64) as u128 == (c / 0x8_0000_0000_0000) % 0x1_0000_0000_0000_0000)
        by (bit_vector);
    assert(((c as u64) & 0x7_ffff_ffff_ffff) as u128 == c % 0x8_0000_0000_0000) by (bit_vector);
}

/// Adds limbwise, without reduction.
#[inline(always)]
pub fn add(a: &Fe, b: &Fe) -> (r: Fe)
    requires
        fits(sum(a@, b@)),
    ensures
        r@ == sum(a@, b@),
        forall|i: int| 0 <= i < 5 ==> #[trigger] r.0@[i] == a.0@[i] + b.0@[i],
{
    proof {
        assert forall|i: int| 0 <= i < 5 implies a.0@[i] + b.0@[i] <= u64::MAX by {
            assert(sum(a@, b@)[i] <= u64::MAX);
        }
    }
    Fe(
        [
            a.0[0] + b.0[0],
            a.0[1] + b.0[1],
            a.0[2] + b.0[2],
            a.0[3] + b.0[3],
            a.0[4] + b.0[4],
        ],
    )
}

/// Carries every limb once.
#[inline(always)]
pub fn reduce(x: [u64; 5]) -> (r: Fe)
    ensures
        r@ == reduced(limbs_of(x@)),
        r.0@[0] == x@[0] % 0x8_0000_0000_0000 + 19 * (x@[4] / 0x8_0000_0000_0000),
        forall|i: int|
            1 <= i < 5 ==> #[trigger] r.0@[i] == x@[i] % 0x8_0000_0000_0000 + x@[i - 1]
                / 0x8_0000_0000_0000,
{
    proof {
        lemma_split_word(x@[0]);
        lemma_split_word(x@[1]);
        lemma_split_word(x@[2]);
        lemma_split_word(x@[3]);
        lemma_split_word(x@[4]);
    }
    let c = [x[0] >> 51, x[1] >> 51, x[2] >> 51, x[3] >> 51, x[4] >> 51];
    Fe(
        [
            (x[0] & MASK51) + c[4] * 19,
            (x[1] & MASK51) + c[0],
            (x[2] & MASK51) + c[1],
            (x[3] & MASK51) + c[2],
            (x[4] & MASK51) + c[3],
        ],
    )
}

/// Subtracts, raised by 16 times the modulus so that no limb goes below zero.
#[inline(always)]
pub fn sub(a: &Fe, b: &Fe) -> (r: Fe)
    requires
        can_subtract(a@, b@),
    ensures
        r@ == difference(a@, b@),
{
    proof {
        assert(raised(a@)[0] <= u64::MAX && 0 <= raised_difference(a@, b@)[0]);
        assert(raised(a@)[1] <= u64::MAX && 0 <= raised_difference(a@, b@)[1]);
        assert(raised(a@)[2] <= u64::MAX && 0 <= raised_difference(a@, b@)[2]);
        assert(raised(a@)[3] <= u64::MAX && 0 <= raised_difference(a@, b@)[3]);
        assert(raised(a@)[4] <= u64::MAX && 0 <= raised_difference(a@, b@)[4]);
    }
    let x = [
        a.0[0] + LOW_OFFSET - b.0[0],
        a.0[1] + HIGH_OFFSET - b.0[1],
        a.0[2] + HIGH_OFFSET - b.0[2],
        a.0[3] + HIGH_OFFSET - b.0[3],
        a.0[4] + HIGH_OFFSET - b.0[4],
    ];
    assert(limbs_of(x@) =~= raised_difference(a@, b@));
    reduce(x)
}

proof fn lemma_term(x: int, y: int)
    requires
        0 <= x,
        0 <= y,
    ensures
        0 <= x * y,
        x * (y * 19) == 19 * (x * y),
{
    assert(0 <= x * y) by (nonlinear_arith)
        requires
            0 <= x,
            0 <= y,
    ;
    assert(x * (y * 19) == 19 * (x * y)) by (nonlinear_arith);
}

/// Every limb product is a natural number, and folding one factor 19-fold
/// folds the product 19-fold.
proof fn lemma_terms(a: Seq<int>, b: Seq<int>)
    requires
        fits(a),
        fits(b),
    ensures
        forall|i: int, j: int|
            0 <= i < 5 && 0 <= j < 5 ==> 0 <= #[trigger] (a[i] * b[j]) && a[i] * (b[j] * 19) == 19
                * (a[i] * b[j]),
{
    assert forall|i: int, j: int| 0 <= i < 5 && 0 <= j < 5 implies 0 <= #[trigger] (a[i] * b[j])
        && a[i] * (b[j] * 19) == 19 * (a[i] * b[j]) by {
        lemma_term(a[i], b[j]);
    }
}

#[inline(always)]
fn m(x: u64, y: u64) -> (r: u128)
    ensures
        r == x * y,
{
    assert(x * y <= u64::MAX * u64::MAX) by (nonlinear_arith)
        requires
            0 <= x <= u64::MAX,
            0 <= y <= u64::MAX,
    ;
    (x as u128) * (y as u128)
}

/// Multiplies and carries.
#[inline(always)]
pub fn mul(a: &Fe, b: &Fe) -> (r: Fe)
    requires
        can_multiply(a@, b@),
    ensures
        r@ == product(a@, b@),
{
    proof {
        lemma_terms(a@, b@);
        reveal_with_fuel(carried, 6);
        assert(19 * b@[1] <= u64::MAX && 19 * b@[2] <= u64::MAX);
        assert(19 * b@[3] <= u64::MAX && 19 * b@[4] <= u64::MAX);
        assert(carried(a@, b@, 0) <= u128::MAX && carried(a@, b@, 1) <= u128::MAX);
        assert(carried(a@, b@, 2) <= u128::MAX && carried(a@, b@, 3) <= u128::MAX);
        assert(carried(a@, b@, 4) <= u128::MAX);
    }
    let b1_19: u64 = b.0[1] * 19;
    let b2_19: u64 = b.0[2] * 19;
    let b3_19: u64 = b.0[3] * 19;
    let b4_19: u64 = b.0[4] * 19;
    let c0: u128 = m(a.0[0], b.0[0]) + m(a.0[4], b1_19) + m(a.0[3], b2_19) + m(a.0[2], b3_19) + m(
        a.0[1],
        b4_19,
    );
    let mut c1: u128 = m(a.0[1], b.0[0]) + m(a.0[0], b.0[1]) + m(a.0[4], b2_19) + m(a.0[3], b3_19)
        + m(a.0[2], b4_19);
    let mut c2: u128 = m(a.0[2], b.0[0]) + m(a.0[1], b.0[1]) + m(a.0[0], b.0[2]) + m(a.0[4], b3_19)
        + m(a.0[3], b4_19);
    let mut c3: u128 = m(a.0[3], b.0[0]) + m(a.0[2], b.0[1]) + m(a.0[1], b.0[2]) + m(
        a.0[0],
        b.0[3],
    ) + m(a.0[4], b4_19);
    let mut c4: u128 = m(a.0[4], b.0[0]) + m(a.0[3], b.0[1]) + m(a.0[2], b.0[2]) + m(
        a.0[1],
        b.0[3],
    ) + m(a.0[0], b.0[4]);
    proof {
        assert(c0 == column(a@, b@, 0) && c1 == column(a@, b@, 1));
        assert(c2 == column(a@, b@, 2) && c3 == column(a@, b@, 3));
        assert(c4 == column(a@, b@, 4));
    }
    proof {
        lemma_split_column(c0);
    }
    c1 += ((c0 >> 51) as u64) as u128;
    let r0: u64 = (c0 as u64) & MASK51;
    proof {
        lemma_split_column(c1);
    }
    c2 += ((c1 >> 51) as u64) as u128;
    let r1: u64 = (c1 as u64) & MASK51;
    proof {
        lemma_split_column(c2);
    }
    c3 += ((c2 >> 51) as u64) as u128;
    let r2: u64 = (c2 as u64) & MASK51;
    proof {
        lemma_split_column(c3);
    }
    c4 += ((c3 >> 51) as u64) as u128;
    let r3: u64 = (c3 as u64) & MASK51;
    proof {
        lemma_split_column(c4);
    }
    let carry: u64 = (c4 >> 51) as u64;
    let r4: u64 = (c4 as u64) & MASK51;
    let low: u64 = r0 + carry * 19;
    proof {
        lemma_split_word(low);
    }
    Fe([low & MASK51, r1 + (low >> 51), r2, r3, r4])
}

} // verus!
