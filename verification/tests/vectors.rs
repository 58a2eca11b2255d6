use gjk2d::roots::isqrt;
use gjk2d::scaling::scale_component;
use gjk2d::vector::{direction_with_length, full_product, Vector2, ONE};

fn v(x: i32, y: i32) -> Vector2 {
    Vector2::new(x, y)
}

#[test]
fn isqrt_rounds_down() {
    assert_eq!(isqrt(0), 0);
    assert_eq!(isqrt(1), 1);
    assert_eq!(isqrt(2), 1);
    assert_eq!(isqrt(3), 1);
    assert_eq!(isqrt(4), 2);
    assert_eq!(isqrt(24), 4);
    assert_eq!(isqrt(25), 5);
    assert_eq!(isqrt(26), 5);
    assert_eq!(isqrt(1_000_000), 1000);
    assert_eq!(isqrt(999_999), 999);
}

#[test]
fn isqrt_of_the_largest_numbers() {
    assert_eq!(isqrt(u64::MAX), 4_294_967_295);
    assert_eq!(isqrt(4_294_967_295 * 4_294_967_295), 4_294_967_295);
    assert_eq!(isqrt(4_294_967_295 * 4_294_967_295 - 1), 4_294_967_294);
}

#[test]
fn new_keeps_the_coordinates() {
    let p = v(3, -4);
    assert_eq!(p.x, 3);
    assert_eq!(p.y, -4);
}

#[test]
fn add_and_sub_work_by_component() {
    assert_eq!(v(1, 2).add(v(10, -20)), v(11, -18));
    assert_eq!(v(1, 2).sub(v(10, -20)), v(-9, 22));
    assert_eq!(v(i32::MAX, i32::MIN).add(v(0, 0)), v(i32::MAX, i32::MIN));
    assert_eq!(v(i32::MAX - 1, i32::MIN + 1).add(v(1, -1)), v(i32::MAX, i32::MIN));
}

#[test]
fn negate_and_scale() {
    assert_eq!(v(5, -7).negate(), v(-5, 7));
    assert_eq!(v(0, 0).negate(), v(0, 0));
    assert_eq!(v(5, -7).scale(3), v(15, -21));
    assert_eq!(v(5, -7).scale(0), v(0, 0));
    assert_eq!(v(5, -7).scale(-1), v(-5, 7));
}

#[test]
fn negating_twice_gives_the_vector_back() {
    assert_eq!(v(123, -456).negate().negate(), v(123, -456));
}

#[test]
fn dot_product() {
    assert_eq!(v(1, 2).dot(v(3, 4)), 11);
    assert_eq!(v(1, 0).dot(v(0, 1)), 0);
    assert_eq!(v(-3, 5).dot(v(5, 3)), 0);
    assert_eq!(v(i32::MAX, i32::MAX).dot(v(i32::MAX, i32::MAX)), 9_223_372_028_264_841_218);
    assert_eq!(v(i32::MIN, i32::MIN).dot(v(i32::MAX, i32::MAX)), -9_223_372_032_559_808_512);
}

#[test]
fn cross_product_is_the_third_component() {
    assert_eq!(v(1, 0).cross(v(0, 1)), 1);
    assert_eq!(v(0, 1).cross(v(1, 0)), -1);
    assert_eq!(v(2, 3).cross(v(4, 6)), 0);
    assert_eq!(v(2, 3).cross(v(5, 7)), -1);
    assert_eq!(v(i32::MIN, i32::MIN).cross(v(i32::MAX, i32::MIN)), 9_223_372_034_707_292_160);
}

#[test]
fn full_product_does_not_overflow() {
    assert_eq!(full_product(i32::MIN, i32::MIN), 4_611_686_018_427_387_904);
    assert_eq!(full_product(i32::MIN, i32::MAX), -4_611_686_016_279_904_256);
    assert_eq!(full_product(-3, 7), -21);
}

#[test]
fn is_zero_only_for_the_zero_vector() {
    assert!(v(0, 0).is_zero());
    assert!(!v(0, 1).is_zero());
    assert!(!v(-1, 0).is_zero());
}

#[test]
fn with_length_is_exact_on_a_pythagorean_direction() {
    assert_eq!(v(3, 4).with_length(5), v(3, 4));
    assert_eq!(v(3, 4).with_length(10), v(6, 8));
    assert_eq!(v(-300, 400).with_length(10), v(-6, 8));
    assert_eq!(v(6, -8).with_length(5), v(3, -4));
}

#[test]
fn with_length_rounds_away_from_zero() {
    // 10 / sqrt(2) = 7.07..
    assert_eq!(v(1, 1).with_length(10), v(8, 8));
    assert_eq!(v(-1, 1).with_length(10), v(-8, 8));
    // 1000 / sqrt(5) = 447.2.., 2000 / sqrt(5) = 894.4..
    assert_eq!(v(1, -2).with_length(1000), v(448, -895));
}

#[test]
fn with_length_along_an_axis_is_exact() {
    assert_eq!(v(5, 0).with_length(7), v(7, 0));
    assert_eq!(v(-5, 0).with_length(7), v(-7, 0));
    assert_eq!(v(0, 1).with_length(7), v(0, 7));
    assert_eq!(v(0, i32::MIN).with_length(i32::MAX), v(0, -i32::MAX));
}

#[test]
fn with_length_zero_is_the_zero_vector() {
    assert_eq!(v(3, -4).with_length(0), v(0, 0));
}

#[test]
fn with_length_ignores_the_length_of_the_direction() {
    assert_eq!(v(1, 3).with_length(1000), v(7, 21).with_length(1000));
    assert_eq!(v(-2, 5).with_length(12345), v(-2000, 5000).with_length(12345));
}

#[test]
fn with_length_of_the_longest_vectors() {
    assert_eq!(v(i32::MIN, i32::MIN).with_length(i32::MAX), v(-1_518_500_250, -1_518_500_250));
    assert_eq!(v(i32::MAX, i32::MIN).with_length(ONE), v(46341, -46341));
}

#[test]
fn normalize_gives_length_one() {
    assert_eq!(v(5, 0).normalize(), v(ONE, 0));
    assert_eq!(v(0, -7).normalize(), v(0, -ONE));
    assert_eq!(v(1, 1).normalize(), v(46341, 46341));
    assert_eq!(v(1000, 1).normalize(), v(65536, 66));
}

#[test]
fn normalized_vector_is_at_least_one_long_and_hardly_longer() {
    let dirs = [v(1, 1), v(3, 4), v(-7, 2), v(1000, 1), v(-1, -999), v(12345, -54321)];
    for d in dirs {
        let n = d.normalize();
        let len2 = n.dot(n);
        let one2 = (ONE as i64) * (ONE as i64);
        assert!(len2 >= one2);
        let inner = v(n.x - n.x.signum(), n.y - n.y.signum());
        assert!(inner.dot(inner) < one2);
    }
}

#[test]
fn direction_with_length_takes_wide_components() {
    assert_eq!(direction_with_length(4_294_967_296, 0, ONE), v(ONE, 0));
    assert_eq!(direction_with_length(-4_294_967_296, 4_294_967_296, ONE), v(-46341, 46341));
    assert_eq!(direction_with_length(3, 4, 5), v(3, 4));
}

#[test]
fn scale_component_rounds_away_from_zero() {
    assert_eq!(scale_component(1, 2, 10), 8);
    assert_eq!(scale_component(-1, 2, 10), -8);
    assert_eq!(scale_component(0, 2, 10), 0);
    assert_eq!(scale_component(3, 25, 5), 3);
    assert_eq!(scale_component(7, 49, 0), 0);
}
