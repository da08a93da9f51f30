use key_travel::point::Point;
use key_travel::point::SCALE;
use key_travel::sqrt::isqrt;

#[test]
fn isqrt_zero() {
    assert_eq!(isqrt(0), 0);
}

#[test]
fn isqrt_small_values() {
    assert_eq!(isqrt(1), 1);
    assert_eq!(isqrt(2), 1);
    assert_eq!(isqrt(3), 1);
    assert_eq!(isqrt(4), 2);
    assert_eq!(isqrt(8), 2);
    assert_eq!(isqrt(9), 3);
    assert_eq!(isqrt(99), 9);
    assert_eq!(isqrt(100), 10);
}

#[test]
fn isqrt_largest_input() {
    assert_eq!(isqrt(u64::MAX), 4294967295);
}

#[test]
fn isqrt_exact_square_scaled() {
    // 9 * SCALE^2 is a perfect square: its root is exactly 3 * SCALE.
    assert_eq!(isqrt(9 * SCALE * SCALE), 3 * SCALE);
}

#[test]
fn point_new_sets_fields() {
    let p = Point::new(3, -4);
    assert_eq!(p.x, 3);
    assert_eq!(p.y, -4);
}

#[test]
fn dist_to_self_is_zero() {
    let p = Point::new(7, 2);
    assert_eq!(p.dist(&p), 0);
}

#[test]
fn dist_three_columns_same_row() {
    // Squared distance 9, so the fixed-point distance is exactly 3 * SCALE.
    let a = Point::new(2, 2);
    let b = Point::new(5, 2);
    assert_eq!(a.dist(&b), 3 * SCALE);
}

#[test]
fn dist_diagonal_step() {
    // Squared distance 2: floor(sqrt(2) * SCALE) = 1482910.
    let a = Point::new(0, 0);
    let b = Point::new(1, 1);
    assert_eq!(a.dist(&b), 1482910);
}

#[test]
fn dist_is_symmetric() {
    let a = Point::new(0, 3);
    let b = Point::new(30, 1);
    assert_eq!(a.dist(&b), b.dist(&a));
}
