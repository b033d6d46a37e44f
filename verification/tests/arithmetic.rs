use barnes_hut::arith::{div_floor, isqrt};
use barnes_hut::clamp;
use barnes_hut::Vec2;

#[test]
fn isqrt_of_small_numbers() {
    let expected: [u64; 18] = [0, 1, 1, 1, 2, 2, 2, 2, 2, 3, 3, 3, 3, 3, 3, 3, 4, 4];
    for n in 0..18u128 {
        assert_eq!(isqrt(n), expected[n as usize], "isqrt({})", n);
    }
}

#[test]
fn isqrt_of_squares_and_their_neighbours() {
    for r in [5u128, 1000, 65_535, 65_536, 4_294_967_296, 1_000_000_000_000_000] {
        assert_eq!(isqrt(r * r) as u128, r);
        assert_eq!(isqrt(r * r - 1) as u128, r - 1);
        assert_eq!(isqrt(r * r + 1) as u128, r);
    }
}

#[test]
fn isqrt_of_the_largest_number() {
    assert_eq!(isqrt(u128::MAX), u64::MAX);
}

#[test]
fn div_floor_rounds_down() {
    assert_eq!(div_floor(7, 2), 3);
    assert_eq!(div_floor(-7, 2), -4);
    assert_eq!(div_floor(-8, 2), -4);
    assert_eq!(div_floor(-1, 5), -1);
    assert_eq!(div_floor(0, 5), 0);
    assert_eq!(div_floor(-19, 4), -5);
    assert_eq!(div_floor(-21, 4), -6);
    assert_eq!(div_floor(i128::MAX, 1), i128::MAX);
    assert_eq!(div_floor(i128::MIN + 1, 1), i128::MIN + 1);
    assert_eq!(div_floor(i128::MIN, 1), i128::MIN);
    assert_eq!(div_floor(i128::MIN, 2), i128::MIN / 2);
    assert_eq!(div_floor(i128::MIN, 3), i128::MIN / 3 - 1);
    assert_eq!(div_floor(-1, u64::MAX), -1);
}

#[test]
fn clamp_keeps_a_value_between_the_bounds() {
    assert_eq!(clamp(0, 5, 10), 5);
    assert_eq!(clamp(0, 0, 10), 0);
    assert_eq!(clamp(0, 10, 10), 10);
}

#[test]
fn clamp_raises_a_value_below_the_low_bound() {
    assert_eq!(clamp(0, -3, 10), 0);
    assert_eq!(clamp(-5i64, i64::MIN, 5), -5);
}

#[test]
fn clamp_lowers_a_value_above_the_high_bound() {
    assert_eq!(clamp(0, 11, 10), 10);
    assert_eq!(clamp(0u8, 255, 1), 1);
}

#[test]
fn clamp_works_on_any_ordered_type() {
    assert_eq!(clamp(0.0f32, 1.5, 1.0), 1.0);
    assert_eq!(clamp(0.0f64, -0.5, 1.0), 0.0);
    assert_eq!(clamp('a', 'q', 'f'), 'f');
}

#[test]
fn vectors_are_made_of_their_components() {
    let a = Vec2::new(3, -4);
    assert_eq!((a.x, a.y), (3, -4));
    assert_eq!(Vec2::zero(), Vec2::new(0, 0));
}
