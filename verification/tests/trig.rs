use raycast::fixed::isqrt128;
use raycast::trig::cos_fixed;
use raycast::trig::sin_fixed;
use raycast::FX_HALF_PI;
use raycast::FX_ONE;
use raycast::FX_PI;
use raycast::FX_TWO_PI;

#[test]
fn cosine_at_cardinal_angles_is_exact() {
    assert_eq!(cos_fixed(0), FX_ONE);
    assert_eq!(cos_fixed(FX_HALF_PI), 0);
    assert_eq!(cos_fixed(FX_PI), -FX_ONE);
    assert_eq!(cos_fixed(FX_TWO_PI), FX_ONE);
}

#[test]
fn sine_at_cardinal_angles_is_exact() {
    assert_eq!(sin_fixed(0), 0);
    assert_eq!(sin_fixed(FX_HALF_PI), FX_ONE);
    assert_eq!(sin_fixed(FX_PI), 0);
    assert_eq!(sin_fixed(-FX_HALF_PI), -FX_ONE);
}

#[test]
fn cosine_of_quarter_pi_is_close_to_half_sqrt_two() {
    // cos(pi/4) = 0.7071... ~ 46341 in fixed point
    let c = cos_fixed(51472);
    assert!((c - 46341).abs() <= 2);
    let s = sin_fixed(51472);
    assert!((s - 46341).abs() <= 2);
}

#[test]
fn cosine_is_periodic_in_full_turns() {
    for &a in [0i64, 12345, 51472, 102944, 177777, -98765].iter() {
        assert_eq!(cos_fixed(a), cos_fixed(a + FX_TWO_PI));
        assert_eq!(cos_fixed(a), cos_fixed(a - 3 * FX_TWO_PI));
    }
}

#[test]
fn integer_square_root_brackets_its_input() {
    let cases: [u128; 6] = [0, 1, 2, 152399025, 1u128 << 80, (1u128 << 92) - 1];
    for &n in cases.iter() {
        let r = isqrt128(n) as u128;
        assert!(r * r <= n);
        assert!((r + 1) * (r + 1) > n);
    }
}

#[test]
fn integer_square_root_of_perfect_square_is_exact() {
    assert_eq!(isqrt128((262144u128) * 262144), 262144);
    assert_eq!(isqrt128(144), 12);
}
