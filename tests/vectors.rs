use rand::rngs::StdRng;
use rand::SeedableRng;
use u61q::vec3::{cross_3, gen_3, isqrt, mltply_3, nrmlz_3, tdiv_i64, V3, UNIT};

fn v(x: i64, y: i64, z: i64) -> V3 {
    V3 { x, y, z }
}

#[test]
fn isqrt_exact_values() {
    assert_eq!(isqrt(0), 0);
    assert_eq!(isqrt(1), 1);
    assert_eq!(isqrt(15), 3);
    assert_eq!(isqrt(16), 4);
    assert_eq!(isqrt(17), 4);
    assert_eq!(isqrt(u64::MAX), 4294967295);
}

#[test]
fn normalize_scales_to_unit() {
    assert_eq!(nrmlz_3(v(3, 4, 0)), v(614, 819, 0));
    assert_eq!(nrmlz_3(v(-3, 0, 0)), v(-UNIT, 0, 0));
    assert_eq!(nrmlz_3(v(0, 0, 5000)), v(0, 0, UNIT));
}

#[test]
fn normalize_zero_stays_zero() {
    assert_eq!(nrmlz_3(v(0, 0, 0)), v(0, 0, 0));
}

#[test]
fn division_rounds_toward_zero() {
    assert_eq!(tdiv_i64(-7, 2), -3);
    assert_eq!(tdiv_i64(7, 2), 3);
}

#[test]
fn scale_and_cross() {
    assert_eq!(mltply_3(v(1, -2, 3), 4), v(4, -8, 12));
    assert_eq!(cross_3(v(1, 0, 0), v(0, 1, 0)), v(0, 0, 1));
    assert_eq!(cross_3(v(0, 1, 0), v(1, 0, 0)), v(0, 0, -1));
}

#[test]
fn random_vectors_stay_in_range_and_follow_the_seed() {
    let mut a = StdRng::seed_from_u64(61);
    let mut b = StdRng::seed_from_u64(61);
    for _ in 0..100 {
        let x = gen_3(-5, 69, &mut a);
        let y = gen_3(-5, 69, &mut b);
        assert_eq!(x, y);
        for c in [x.x, x.y, x.z] {
            assert!((-5..=69).contains(&c));
        }
    }
    let one = gen_3(3, 3, &mut a);
    assert_eq!(one, v(3, 3, 3));
}
