//! Action descriptions, pruning budgets, and candidate generation.

use decision_engine::actions::{generate_shortlist, Action, InvestSector, PruningConfig, TechType};
use decision_engine::country::{Country, CountryEdge};
use decision_engine::fixed::FX_ONE;
use decision_engine::world::WorldState;

#[test]
fn test_action_description() {
    let action = Action::Attack { target_id: 2 };
    assert_eq!(action.description(), "Attack country 2");

    let action = Action::Pass;
    assert_eq!(action.description(), "Pass");
}

#[test]
fn descriptions_cover_every_action_kind() {
    assert_eq!(
        Action::Invest { sector: InvestSector::Economy }.description(),
        "Invest in Economy"
    );
    assert_eq!(
        Action::Research { tech: TechType::TechnologicalBreakthrough }.description(),
        "Research TechnologicalBreakthrough"
    );
    assert_eq!(Action::Ally { target_id: 17 }.description(), "Ally with country 17");
    assert_eq!(Action::Pact { target_id: 300 }.description(), "Sign pact with country 300");
    assert_eq!(Action::Trade { target_id: 0 }.description(), "Trade with country 0");
    assert_eq!(Action::Fortify { tile_id: 9 }.description(), "Fortify tile 9");
    assert_eq!(Action::Move { tile_id: 41 }.description(), "Move to tile 41");
}

#[test]
fn test_pruning_config() {
    let config = PruningConfig::default();
    assert_eq!(config.k_attack, 3);
    assert_eq!(config.k_fortify, 3);
}

#[test]
fn test_generate_shortlist_includes_pass() {
    let country = Country::new(1);
    let world = WorldState::new();
    let config = PruningConfig::default();

    let shortlist = generate_shortlist(1, &country, &world, &config);

    assert!(shortlist.iter().any(|a| matches!(a, Action::Pass)));
}

#[test]
fn test_generate_shortlist_attack_candidates() {
    let mut country = Country::new(1);
    let mut world = WorldState::new();

    let mut neighbor1 = Country::new(2);
    neighbor1.resources = 1000 * FX_ONE;
    let mut neighbor2 = Country::new(3);
    neighbor2.resources = 500 * FX_ONE;

    world.add_country(neighbor1);
    world.add_country(neighbor2);

    let mut edge1 = CountryEdge::new(2);
    edge1.hostility = 800_000;
    let mut edge2 = CountryEdge::new(3);
    edge2.hostility = 200_000;

    country.add_edge(edge1);
    country.add_edge(edge2);

    let config = PruningConfig::default();
    let shortlist = generate_shortlist(1, &country, &world, &config);

    let attack_count = shortlist.iter().filter(|a| matches!(a, Action::Attack { .. })).count();
    assert!(attack_count > 0);
    assert!(attack_count <= config.k_attack);
}

#[test]
fn shortlist_ranks_attacks_by_upper_bound() {
    // Four neighbors, only the three best upper bounds survive, richest
    // first.
    let mut country = Country::new(1);
    let mut world = WorldState::new();
    for (id, res) in [(2u32, 100i64), (3, 900), (4, 500), (5, 700)] {
        let mut nb = Country::new(id);
        nb.resources = res * FX_ONE;
        world.add_country(nb);
        country.add_edge(CountryEdge::new(id));
    }
    let config = PruningConfig::default();
    let shortlist = generate_shortlist(1, &country, &world, &config);
    let attacks: Vec<u32> = shortlist
        .iter()
        .filter_map(|a| match a {
            Action::Attack { target_id } => Some(*target_id),
            _ => None,
        })
        .collect();
    assert_eq!(attacks, vec![3, 5, 4]);
}
