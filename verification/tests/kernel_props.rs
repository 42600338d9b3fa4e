//! Scenario tests for the scalar force kernel and the fixed-point
//! arithmetic it is built on.

use particle_3d::fixed::{fix_div, fix_mul, isqrt, sat_add, sat_sub, SCALE};
use particle_3d::grid::floor_div;
use particle_3d::kernel::calculate_force;

#[test]
fn repulsion_at_contact() {
    // beta = 0.3, r_norm = 0.1 < beta: magnitude is r/beta - 1 =
    // -0.667 (truncated), repulsive regardless of a positive
    // attraction coefficient.
    let beta: i64 = 300_000;
    let r: i64 = 100_000;
    let f = calculate_force(r, SCALE, beta);
    assert_eq!(f, -666_667);
}

#[test]
fn repulsion_ignores_attraction() {
    let beta: i64 = 300_000;
    let r: i64 = 100_000;
    let f1 = calculate_force(r, SCALE, beta);
    let f2 = calculate_force(r, -SCALE, beta);
    let f3 = calculate_force(r, 0, beta);
    assert_eq!(f1, f2);
    assert_eq!(f1, f3);
    assert!(f1 < 0);
}

#[test]
fn kernel_peak_reproduces_attraction() {
    // beta = 0.3, r_norm = 0.65, the midpoint of [0.3, 1):
    // |2 * 0.65 - 1 - 0.3| = 0, so the coefficient comes out
    // unscaled.
    let beta: i64 = 300_000;
    let r: i64 = 650_000;
    assert_eq!(calculate_force(r, SCALE, beta), SCALE);
    assert_eq!(calculate_force(r, 730_000, beta), 730_000);
    assert_eq!(calculate_force(r, -250_000, beta), -250_000);
}

#[test]
fn kernel_vanishes_at_radius() {
    let beta: i64 = 300_000;
    assert_eq!(calculate_force(SCALE, SCALE, beta), 0);
    assert_eq!(calculate_force(2 * SCALE, SCALE, beta), 0);
}

#[test]
fn kernel_vanishes_at_band_ends() {
    // At r = beta and just below r = 1 the triangular profile is at
    // (or near) zero.
    let beta: i64 = 300_000;
    let at_beta = calculate_force(beta, SCALE, beta);
    assert_eq!(at_beta, 0);
    let near_one = calculate_force(SCALE - 1, SCALE, beta);
    assert!(near_one.abs() <= 3);
}

#[test]
fn fixed_point_ops_are_exact() {
    assert_eq!(fix_mul(500_000, SCALE), 500_000);
    assert_eq!(fix_mul(500_000, 500_000), 250_000);
    assert_eq!(fix_mul(-500_000, 500_000), -250_000);
    // division truncates toward zero, also for negative values
    assert_eq!(fix_div(-1, 3), -333_333);
    assert_eq!(fix_div(1, 3), 333_333);
    assert_eq!(fix_div(7, 0), 0);
    // saturation at the i64 range
    assert_eq!(sat_add(i64::MAX, 1), i64::MAX);
    assert_eq!(sat_sub(i64::MIN, 1), i64::MIN);
    assert_eq!(sat_add(40, 2), 42);
}

#[test]
fn integer_square_root() {
    assert_eq!(isqrt(0), 0);
    assert_eq!(isqrt(1), 1);
    assert_eq!(isqrt(3), 1);
    assert_eq!(isqrt(4), 2);
    assert_eq!(isqrt(999_999), 999);
    assert_eq!(isqrt(1_000_000), 1000);
    assert_eq!(isqrt((SCALE as u128) * (SCALE as u128)), SCALE as u128);
}

#[test]
fn floor_division_rounds_down() {
    assert_eq!(floor_div(7, 2), 3);
    assert_eq!(floor_div(-7, 2), -4);
    assert_eq!(floor_div(-8, 2), -4);
    assert_eq!(floor_div(0, 5), 0);
}
