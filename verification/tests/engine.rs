//! World state and the tick state machine: registration, alliances, threat
//! indices, determinism, and the end-to-end scenarios.

use decision_engine::country::{BorderTile, Country};
use decision_engine::fixed::FX_ONE;
use decision_engine::system::DecisionSystem;
use decision_engine::world::WorldState;

#[test]
fn test_world_state_creation() {
    let world = WorldState::new();
    assert_eq!(world.countries().len(), 0);
    assert_eq!(world.get_tick(), 0);
}

#[test]
fn test_add_country() {
    let mut world = WorldState::new();
    let country = Country::new(1);
    world.add_country(country);

    assert_eq!(world.countries().len(), 1);
    assert!(world.get_country(1).is_some());
}

#[test]
fn test_alliances() {
    let mut world = WorldState::new();
    world.add_country(Country::new(1));
    world.add_country(Country::new(2));

    assert!(!world.are_allies(1, 2));

    world.add_alliance(1, 2);

    assert!(world.are_allies(1, 2));
    assert!(world.are_allies(2, 1));
}

#[test]
fn alliance_symmetry_holds_for_self_pairs() {
    let mut world = WorldState::new();
    world.add_country(Country::new(5));
    assert_eq!(world.are_allies(5, 5), world.are_allies(5, 5));
    assert!(!world.are_allies(5, 5));
    world.add_alliance(5, 5);
    assert!(world.are_allies(5, 5));
    // The self pair bumps the one country twice, as documented.
    assert_eq!(world.get_country(5).unwrap().ally_count, 2);
}

#[test]
fn repeated_alliance_bumps_counts_again() {
    // The set keeps one pair, but every call bumps the ally counts: the
    // engine leaves guarding repeats to the host.
    let mut world = WorldState::new();
    world.add_country(Country::new(1));
    world.add_country(Country::new(2));
    world.add_alliance(1, 2);
    world.add_alliance(2, 1);
    assert!(world.are_allies(1, 2));
    assert_eq!(world.get_country(1).unwrap().ally_count, 2);
    assert_eq!(world.get_country(2).unwrap().ally_count, 2);
}

#[test]
fn test_decision_system_creation() {
    let system = DecisionSystem::new();
    assert_eq!(system.get_tick(), 0);
}

#[test]
fn test_decision_system_determinism() {
    let mut system1 = DecisionSystem::init(42);
    let mut system2 = DecisionSystem::init(42);

    system1.add_country(1);
    system1.add_country(2);
    system2.add_country(1);
    system2.add_country(2);

    system1.tick();
    system2.tick();

    assert_eq!(system1.get_tick(), system2.get_tick());
}

#[test]
fn test_tick_execution() {
    let mut system = DecisionSystem::new();
    system.add_country(1);
    system.add_country(2);
    system.add_edge(1, 2, 1, 500_000);

    assert_eq!(system.get_tick(), 0);

    system.tick();

    assert_eq!(system.get_tick(), 1);

    assert_eq!(system.logs().len(), 2);
}

#[test]
fn test_full_tick_contract() {
    let mut system = DecisionSystem::init(42);

    system.add_country(1);
    system.add_country(2);
    system.add_country(3);

    system.add_edge(1, 2, 1, 700_000);
    system.add_edge(1, 3, 2, 300_000);
    system.add_edge(2, 1, 1, 500_000);
    system.add_edge(2, 3, 1, 600_000);
    system.add_edge(3, 1, 2, 200_000);
    system.add_edge(3, 2, 1, 400_000);

    for _ in 0..5 {
        system.tick();
    }

    assert_eq!(system.get_tick(), 5);

    // One log per country per tick.
    assert_eq!(system.logs().len(), 15);

    for log in system.logs().iter() {
        assert!(!log.chosen_action.is_empty());
        assert!(log.weights.alpha >= 2 && log.weights.alpha <= 16);
        assert!(log.weights.beta >= 2 && log.weights.beta <= 16);
    }
}

#[test]
fn test_determinism_multiple_runs() {
    let seed = 123456;

    let mut system1 = DecisionSystem::init(seed);
    system1.add_country(1);
    system1.add_country(2);
    system1.add_edge(1, 2, 1, 800_000);
    system1.add_edge(2, 1, 1, 600_000);

    for _ in 0..3 {
        system1.tick();
    }

    let mut system2 = DecisionSystem::init(seed);
    system2.add_country(1);
    system2.add_country(2);
    system2.add_edge(1, 2, 1, 800_000);
    system2.add_edge(2, 1, 1, 600_000);

    for _ in 0..3 {
        system2.tick();
    }

    assert_eq!(system1.logs().len(), system2.logs().len());

    for (log1, log2) in system1.logs().iter().zip(system2.logs().iter()) {
        assert_eq!(log1.country_id, log2.country_id);
        assert_eq!(log1.chosen_action, log2.chosen_action);
        assert_eq!(log1.score, log2.score);
        assert_eq!(log1.weights.alpha, log2.weights.alpha);
        assert_eq!(log1.weights.beta, log2.weights.beta);
    }
}

#[test]
fn test_score_normalization() {
    let mut system = DecisionSystem::new();
    system.add_country(1);
    system.add_country(2);
    system.add_edge(1, 2, 1, 800_000);

    system.tick();

    for log in system.logs().iter() {
        assert!(log.components.delta_res >= -32 * FX_ONE && log.components.delta_res <= 32 * FX_ONE);
        assert!(log.components.delta_sec >= -32 * FX_ONE && log.components.delta_sec <= 32 * FX_ONE);
        assert!(
            log.components.delta_growth >= -32 * FX_ONE
                && log.components.delta_growth <= 32 * FX_ONE
        );
        assert!(log.components.delta_pos >= -32 * FX_ONE && log.components.delta_pos <= 32 * FX_ONE);

        assert!(log.components.cost >= 0 && log.components.cost <= 16 * FX_ONE);
        assert!(log.components.risk >= 0 && log.components.risk <= 16 * FX_ONE);
    }
}

#[test]
fn test_adaptive_weights_bounded() {
    let mut system = DecisionSystem::new();
    system.add_country(1);

    if let Some(country) = system.world_mut().get_country_mut(1) {
        country.resources = 0;
        country.threat_index = 1000 * FX_ONE;
        country.growth = 0;
        country.recent_losses = 500 * FX_ONE;
    }

    system.tick();

    let log = system.logs().first().expect("one log expected");
    assert!(log.weights.alpha >= 2 && log.weights.alpha <= 16);
    assert!(log.weights.beta >= 2 && log.weights.beta <= 16);
    assert!(log.weights.gamma >= 2 && log.weights.gamma <= 16);
    assert!(log.weights.delta >= 2 && log.weights.delta <= 16);
    assert!(log.weights.kappa >= 2 && log.weights.kappa <= 16);
    assert!(log.weights.rho >= 2 && log.weights.rho <= 16);
}

#[test]
fn test_threat_index_computation() {
    let mut system = DecisionSystem::new();
    system.add_country(1);
    system.add_country(2);
    system.add_country(3);

    system.add_edge(1, 2, 1, 900_000);
    system.add_edge(1, 3, 3, 100_000);

    if let Some(country2) = system.world_mut().get_country_mut(2) {
        country2.m_eff = 200 * FX_ONE;
    }
    if let Some(country3) = system.world_mut().get_country_mut(3) {
        country3.m_eff = 50 * FX_ONE;
    }

    system.tick();

    let country = system.world().get_country(1).unwrap();
    assert!(country.threat_index > 0);
}

#[test]
fn test_alliance_reduces_threat() {
    let mut system = DecisionSystem::new();
    system.add_country(1);
    system.add_country(2);
    system.add_edge(1, 2, 1, 0);

    if let Some(country2) = system.world_mut().get_country_mut(2) {
        country2.m_eff = 200 * FX_ONE;
    }

    system.world.update_threat_indices(&system.luts);
    let threat_before = system.world().get_country(1).unwrap().threat_index;

    system.world_mut().add_alliance(1, 2);
    system.world.update_threat_indices(&system.luts);
    let threat_after = system.world().get_country(1).unwrap().threat_index;

    assert!(threat_after < threat_before);
}

#[test]
fn test_action_diversity() {
    let mut system = DecisionSystem::new();
    system.add_country(1);
    system.add_country(2);
    system.add_edge(1, 2, 1, 500_000);

    if let Some(country) = system.world_mut().get_country_mut(1) {
        country.border_tiles.push(BorderTile::new(1, 0, 0));
        country.border_tiles[0].threat_gradient = 5 * FX_ONE;
        country.resources = 1000 * FX_ONE;
    }

    if let Some(country) = system.world_mut().get_country_mut(2) {
        country.resources = 1000 * FX_ONE;
    }

    for _ in 0..20 {
        system.tick();
    }

    let all_actions: Vec<String> =
        system.logs().iter().map(|log| log.chosen_action.clone()).collect();

    assert!(!all_actions.is_empty());
    assert!(system.logs().len() > 0);
}

#[test]
fn tick_on_empty_world_only_advances_the_counter() {
    let mut system = DecisionSystem::new();
    system.tick();
    assert_eq!(system.get_tick(), 1);
    assert_eq!(system.logs().len(), 0);
}

#[test]
fn repeated_country_id_resets_in_place() {
    let mut system = DecisionSystem::new();
    system.add_country(1);
    system.add_country(2);
    if let Some(c) = system.world_mut().get_country_mut(1) {
        c.resources = 7 * FX_ONE;
    }
    system.add_country(1);
    assert_eq!(system.world().countries().len(), 2);
    let c = system.world().get_country(1).unwrap();
    assert_eq!(c.resources, 500 * FX_ONE);
    // Registry order is stable: the reset country keeps its slot.
    assert_eq!(system.world().countries()[0].id, 1);
    assert_eq!(system.world().countries()[1].id, 2);
}

#[test]
fn edge_to_unknown_source_is_a_no_op() {
    let mut system = DecisionSystem::new();
    system.add_country(1);
    system.add_edge(99, 1, 1, 500_000);
    assert_eq!(system.world().get_country(1).unwrap().edges.len(), 0);
    system.add_edge(1, 99, 1, 500_000);
    assert_eq!(system.world().get_country(1).unwrap().edges.len(), 1);
}

#[test]
fn clear_logs_keeps_simulation_state() {
    let mut system = DecisionSystem::new();
    system.add_country(1);
    system.tick();
    assert_eq!(system.logs().len(), 1);
    system.clear_logs();
    assert_eq!(system.logs().len(), 0);
    assert_eq!(system.get_tick(), 1);
    assert!(system.world().get_country(1).is_some());
}
