use wg_vanity::edwards::{
    as_extended, fe, point_add, run_steps, step, AffineNielsPoint, EdwardsPoint,
};
use wg_vanity::field::{add, mul, reduce, sub, Fe};

fn start() -> EdwardsPoint {
    EdwardsPoint { x: fe(1), y: fe(2), z: fe(3), t: fe(4) }
}

fn addend() -> AffineNielsPoint {
    AffineNielsPoint { y_plus_x: fe(5), y_minus_x: fe(6), xy2d: fe(7) }
}

#[test]
fn seeds_spread_over_the_limbs() {
    assert_eq!(
        fe(1).0,
        [2104162448473109, 2104162448473108, 2104162448473111, 2104162448473110, 2104162448473105]
    );
    assert_eq!(
        fe(5).0,
        [1513612987624553, 1513612987624548, 1513612987624563, 1513612987624558, 1513612987624533]
    );
    assert_eq!(fe(0).0, [0; 5]);
}

#[test]
fn sums_are_limbwise() {
    assert_eq!(
        add(&fe(1), &fe(2)).0,
        [4060687531734079, 4060687531734076, 4060687531734085, 4060687531734082, 4060687531734067]
    );
}

#[test]
fn differences_are_carried() {
    assert_eq!(
        sub(&fe(1), &fe(2)).0,
        [147637365212139, 147637365212140, 147637365212137, 147637365212138, 147637365212143]
    );
    assert_eq!(sub(&fe(0), &fe(0)).0, [2251799813685229, 2251799813685247, 2251799813685247, 2251799813685247, 2251799813685247]);
}

#[test]
fn reduction_carries_every_limb() {
    assert_eq!(
        reduce([u64::MAX; 5]).0,
        [2251799813840876, 2251799813693438, 2251799813693438, 2251799813693438, 2251799813693438]
    );
    assert_eq!(reduce([1, 2, 3, 4, 5]).0, [1, 2, 3, 4, 5]);
    assert_eq!(reduce([0, 0, 0, 0, 1 << 51]).0, [19, 0, 0, 0, 0]);
}

#[test]
fn products_are_carried() {
    assert_eq!(
        mul(&fe(1), &fe(2)).0,
        [1105013287828045, 816079955252056, 891620116906218, 1596269051713098, 942862224909193]
    );
    let largest = Fe([(1 << 54) - 1; 5]);
    assert_eq!(mul(&largest, &largest).0, [26525, 2251799813690155, 4024, 3143, 2261]);
    assert_eq!(mul(&Fe([3, 0, 0, 0, 0]), &Fe([7, 0, 0, 0, 0])).0, [21, 0, 0, 0, 0]);
    assert_eq!(mul(&Fe([0, 0, 0, 0, 1]), &Fe([0, 1, 0, 0, 0])).0, [19, 0, 0, 0, 0]);
}

#[test]
fn points_are_added() {
    let sum = point_add(&start(), &addend());
    assert_eq!(
        sum.x.0,
        [1241086387417313, 458277157468905, 1315598651555393, 1626209904301321, 1455069764011811]
    );
    assert_eq!(
        sum.y.0,
        [2596380240940047, 2596406108146293, 1919804037395985, 2219344550537043, 2895998355718658]
    );
    assert_eq!(
        sum.z.0,
        [5771839092071780, 4913515567677447, 4654221335130737, 4195250671982739, 4989697669450405]
    );
    assert_eq!(
        sum.t.0,
        [1463711780123544, 70235490832617, 329529723379364, 788500386527350, 2245853202744872]
    );
}

#[test]
fn steps_end_over_one_denominator() {
    let mut point = start();
    step(&mut point, &addend());
    let expected = as_extended(&point_add(&start(), &addend()));
    assert_eq!(point.x.0, expected.x.0);
    assert_eq!(
        point.x.0,
        [1282307085136782, 1433069533842907, 638365325404896, 190809702920646, 573015935393909]
    );
    assert_eq!(
        point.y.0,
        [2059005583789110, 2074741229550723, 2093206287473787, 1466691529089065, 1294818982933888]
    );
    assert_eq!(
        point.z.0,
        [92642654966118, 1387598066396675, 1824149610490754, 751565120046248, 573105907798666]
    );
    assert_eq!(
        point.t.0,
        [523174963131483, 1753290274726250, 264605566783776, 917967669004197, 825773850690005]
    );
}

#[test]
fn bounded_points_stay_bounded() {
    let mut point = EdwardsPoint {
        x: Fe([(1 << 52) - 1; 5]),
        y: Fe([(1 << 52) - 1; 5]),
        z: Fe([(1 << 52) - 1; 5]),
        t: Fe([(1 << 52) - 1; 5]),
    };
    let largest = Fe([(1 << 54) - 1; 5]);
    let addend = AffineNielsPoint { y_plus_x: largest, y_minus_x: largest, xy2d: largest };
    for _ in 0..100 {
        step(&mut point, &addend);
        for element in [point.x, point.y, point.z, point.t] {
            assert!(element.0.iter().all(|&limb| limb < 1 << 52));
        }
    }
}

#[test]
fn checksums_are_reproducible() {
    assert_eq!(run_steps(0), 0);
    assert_eq!(run_steps(1), 1945421994713898);
    assert_eq!(run_steps(2), 1382094463332761);
    assert_eq!(run_steps(3), 1498056737881286);
    assert_eq!(run_steps(1000), 120467910537771);
}
