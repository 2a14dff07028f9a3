//! Lookup-table behavior: boundary values, interpolation, clamping,
//! monotonicity, and the exact out-of-range policies.

use decision_engine::fixed::FX_ONE;
use decision_engine::luts::{DiscountLut, DistanceKernelLut, LogRatioLut, LookupTables, SigmoidLut};

#[test]
fn test_sigmoid_lut() {
    let lut = SigmoidLut::default();

    // The midpoint reads one half.
    assert!((lut.lookup(0) - 500_000).abs() < 10_000);

    // The left boundary is close to zero.
    assert!(lut.lookup(-4 * FX_ONE) < 50_000);

    // The right boundary is close to one.
    assert!(lut.lookup(4 * FX_ONE) > 950_000);

    // Clamps outside the domain.
    assert!(lut.lookup(-10 * FX_ONE) < 50_000);
    assert!(lut.lookup(10 * FX_ONE) > 950_000);
}

#[test]
fn sigmoid_lookup_is_monotone() {
    let lut = SigmoidLut::default();
    let mut x: i64 = -6 * FX_ONE;
    let mut prev = lut.lookup(x);
    while x <= 6 * FX_ONE {
        let v = lut.lookup(x);
        assert!(v >= prev, "sigmoid lookup decreased at {}", x);
        prev = v;
        x += 137_501;
    }
}

#[test]
fn sigmoid_clamps_to_boundary_value() {
    let lut = SigmoidLut::default();
    assert_eq!(lut.lookup(-100 * FX_ONE), lut.lookup(-4 * FX_ONE));
    assert_eq!(lut.lookup(55 * FX_ONE), lut.lookup(4 * FX_ONE));
}

#[test]
fn test_log_ratio_lut() {
    let lut = LogRatioLut::default();

    // ln(1) is zero.
    assert!((lut.lookup(FX_ONE) - 0).abs() < 10_000);

    // ln(0.25) is about -1.386.
    assert!((lut.lookup(250_000) + 1_386_000).abs() < 100_000);

    // ln(4) is about 1.386.
    assert!((lut.lookup(4 * FX_ONE) - 1_386_000).abs() < 100_000);
}

#[test]
fn test_discount_lut() {
    let lut = DiscountLut::new(900_000, 8);

    // rate^1
    assert!((lut.get(1) - 900_000).abs() < 10_000);

    // rate^2
    assert!((lut.get(2) - 810_000).abs() < 10_000);

    // Out of range reads zero.
    assert_eq!(lut.get(0), 0);
    assert_eq!(lut.get(9), 0);
}

#[test]
fn discount_default_is_exact_power_series() {
    let lut = DiscountLut::default();
    let rate: i64 = 950_000;
    assert_eq!(lut.get(0), 0);
    assert_eq!(lut.get(1), rate);
    assert_eq!(lut.get(2), rate * rate / FX_ONE);
    assert_eq!(lut.get(16), {
        let mut v: i64 = FX_ONE;
        for _ in 0..16 {
            v = v * rate / FX_ONE;
        }
        v
    });
    assert_eq!(lut.get(17), 0);
}

#[test]
fn test_distance_kernel_lut() {
    let lut = DistanceKernelLut::new(10, 200_000);

    // The zero distance reads one.
    assert!((lut.get(0) - FX_ONE).abs() < 10_000);

    // Strictly decreasing with distance.
    assert!(lut.get(1) < lut.get(0));
    assert!(lut.get(2) < lut.get(1));

    // Out of range reads zero.
    assert_eq!(lut.get(11), 0);
}

#[test]
fn distance_kernel_default_strictly_decreases_over_whole_range() {
    let lut = DistanceKernelLut::default();
    assert_eq!(lut.get(0), FX_ONE);
    for d in 0..20usize {
        assert!(lut.get(d + 1) < lut.get(d), "kernel not decreasing at {}", d);
        assert!(lut.get(d + 1) > 0);
    }
    assert_eq!(lut.get(21), 0);
}

#[test]
fn lookup_tables_build_with_defaults() {
    let luts = LookupTables::new();
    assert!((luts.sigmoid.lookup(0) - 500_000).abs() < 10_000);
    assert!((luts.log_ratio.lookup(FX_ONE)).abs() < 10_000);
    assert_eq!(luts.discount.get(1), 950_000);
    assert_eq!(luts.distance_kernel.get(0), FX_ONE);
    assert_eq!(luts.discount.factors().len(), 16);
}
