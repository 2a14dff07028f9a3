//! Country model behavior: creation, edges, adaptive weights, marginal
//! values, and the saturating counter.

use decision_engine::counter::Counter;
use decision_engine::country::{AdaptiveWeights, Country, CountryEdge, MarginalValues};
use decision_engine::fixed::{FX_ONE, FX_STAT_CAP};

#[test]
fn test_country_creation() {
    let country = Country::new(1);
    assert_eq!(country.id, 1);
    assert_eq!(country.m_eff, 100 * FX_ONE);
    assert_eq!(country.edges.len(), 0);
}

#[test]
fn test_add_edge() {
    let mut country = Country::new(1);
    let edge = CountryEdge::new(2);
    country.add_edge(edge);
    assert_eq!(country.edges.len(), 1);
    assert_eq!(country.edges[0].neighbor_id, 2);
}

#[test]
fn test_adaptive_weights_update() {
    let mut weights = AdaptiveWeights::new();

    weights.update(200 * FX_ONE, 50 * FX_ONE, 20 * FX_ONE, 0, 0);

    // Scarce resources raise alpha.
    assert!(weights.alpha >= 8);

    // High threat raises beta.
    assert!(weights.beta > 8);

    // All weights within bounds.
    assert!(weights.alpha >= 2 && weights.alpha <= 16);
    assert!(weights.beta >= 2 && weights.beta <= 16);
    assert!(weights.gamma >= 2 && weights.gamma <= 16);
}

#[test]
fn weights_bounded_for_extreme_inputs() {
    let extremes: [i64; 5] = [-FX_STAT_CAP, -FX_ONE, 0, FX_ONE, FX_STAT_CAP];
    for &r in extremes.iter() {
        for &t in extremes.iter() {
            let mut w = AdaptiveWeights::new();
            w.update(r, t, -r, usize::MAX, t);
            assert!(w.alpha >= 2 && w.alpha <= 16);
            assert!(w.beta >= 2 && w.beta <= 16);
            assert!(w.gamma >= 2 && w.gamma <= 16);
            assert!(w.delta >= 2 && w.delta <= 16);
            assert!(w.kappa >= 2 && w.kappa <= 16);
            assert!(w.rho >= 2 && w.rho <= 16);
        }
    }
}

#[test]
fn test_marginal_values_update() {
    let mut marginal_values = MarginalValues::new();

    marginal_values.update(10 * FX_ONE, 200 * FX_ONE, FX_ONE, 10 * FX_ONE);

    // The lower stat carries the higher marginal value.
    assert!(marginal_values.military > marginal_values.economy);
}

#[test]
fn test_new_counter() {
    let counter = Counter::new();
    assert_eq!(counter.get_value(), 0);
}

#[test]
fn test_increment() {
    let mut counter = Counter::new();
    assert_eq!(counter.increment(), 1);
    assert_eq!(counter.increment(), 2);
}

#[test]
fn test_decrement() {
    let mut counter = Counter::new();
    counter.set_value(5);
    assert_eq!(counter.decrement(), 4);
    assert_eq!(counter.decrement(), 3);
}

#[test]
fn test_reset() {
    let mut counter = Counter::with_value(10);
    counter.reset();
    assert_eq!(counter.get_value(), 0);
}

#[test]
fn counter_saturates_at_the_bounds() {
    let mut counter = Counter::with_value(i32::MAX);
    assert_eq!(counter.increment(), i32::MAX);
    counter.set_value(i32::MIN);
    assert_eq!(counter.decrement(), i32::MIN);
}
