//! Scoring functions: the weighted reduction, per-family scorers, channel
//! ranges, degrade-to-zero on missing references, and batch equivalence.

use decision_engine::actions::{Action, InvestSector, TechType};
use decision_engine::country::{AdaptiveWeights, Country};
use decision_engine::fixed::FX_ONE;
use decision_engine::luts::LookupTables;
use decision_engine::scoring::{
    score_action, score_actions_batch, score_invest, score_research, ScoreComponents,
};
use decision_engine::world::WorldState;

#[test]
fn scoring_test_score_components_final_score() {
    let mut comp = ScoreComponents::zero();
    comp.delta_res = 10 * FX_ONE;
    comp.delta_sec = 5 * FX_ONE;
    comp.cost = 3 * FX_ONE;

    let weights = AdaptiveWeights::new();
    let score = comp.final_score(&weights);

    // 8*10 + 8*5 + 0 + 0 - 8*3 - 0 = 96
    assert_eq!(score, 96 * FX_ONE);
}

#[test]
fn scoring_test_score_invest() {
    let country = Country::new(1);
    let luts = LookupTables::new();

    let comp = score_invest(&country, InvestSector::Economy, &luts);

    assert!(comp.delta_growth > 0);
    assert!(comp.cost > 0);
    assert!(comp.risk < 5 * FX_ONE);
}

#[test]
fn scoring_test_score_research() {
    let mut country = Country::new(1);
    country.marginal_values.tech = 5 * FX_ONE;

    let comp = score_research(&country, TechType::TechnologicalBreakthrough);

    assert!(comp.delta_growth > 0);
    assert_eq!(comp.risk, 0);
}

#[test]
fn scoring_test_score_pass() {
    let country = Country::new(1);
    let world = WorldState::new();
    let luts = LookupTables::new();

    let comp = score_action(&country, &Action::Pass, &world, &luts);

    assert_eq!(comp.delta_res, 0);
    assert_eq!(comp.delta_sec, 0);
    assert_eq!(comp.cost, 0);
}

#[test]
fn missing_references_score_zero() {
    let country = Country::new(1);
    let world = WorldState::new();
    let luts = LookupTables::new();

    for action in [
        Action::Attack { target_id: 99 },
        Action::Ally { target_id: 99 },
        Action::Pact { target_id: 99 },
        Action::Trade { target_id: 99 },
        Action::Fortify { tile_id: 99 },
        Action::Move { tile_id: 99 },
    ] {
        let comp = score_action(&country, &action, &world, &luts);
        assert_eq!(comp, ScoreComponents::zero(), "{} was not neutral", action.description());
    }
}

#[test]
fn every_scorer_respects_channel_ranges() {
    let mut world = WorldState::new();
    let mut c1 = Country::new(1);
    c1.resources = 0;
    let mut c2 = Country::new(2);
    c2.m_eff = 900_000 * FX_ONE;
    c2.resources = 999_999 * FX_ONE;
    let mut edge = decision_engine::country::CountryEdge::new(2);
    edge.hostility = FX_ONE;
    edge.relations = 100 * FX_ONE;
    c1.add_edge(edge);
    c1.border_tiles.push(decision_engine::country::BorderTile::new(7, 0, 0));
    c1.border_tiles[0].threat_gradient = -900_000 * FX_ONE;
    world.add_country(c1.clone());
    world.add_country(c2);
    let luts = LookupTables::new();

    for action in [
        Action::Attack { target_id: 2 },
        Action::Invest { sector: InvestSector::Infrastructure },
        Action::Research { tech: TechType::MilitaryAdvancement },
        Action::Ally { target_id: 2 },
        Action::Pact { target_id: 2 },
        Action::Trade { target_id: 2 },
        Action::Fortify { tile_id: 7 },
        Action::Move { tile_id: 7 },
        Action::Pass,
    ] {
        let comp = score_action(&c1, &action, &world, &luts);
        assert!(comp.delta_res >= -32 * FX_ONE && comp.delta_res <= 32 * FX_ONE);
        assert!(comp.delta_sec >= -32 * FX_ONE && comp.delta_sec <= 32 * FX_ONE);
        assert!(comp.delta_growth >= -32 * FX_ONE && comp.delta_growth <= 32 * FX_ONE);
        assert!(comp.delta_pos >= -32 * FX_ONE && comp.delta_pos <= 32 * FX_ONE);
        assert!(comp.cost >= 0 && comp.cost <= 16 * FX_ONE);
        assert!(comp.risk >= 0 && comp.risk <= 16 * FX_ONE);
    }
}

#[test]
fn test_score_actions_batch_matches_scalar() {
    let country = Country::new(1);
    let world = WorldState::new();
    let luts = LookupTables::new();
    let actions = vec![
        Action::Pass,
        Action::Invest { sector: InvestSector::Economy },
        Action::Research { tech: TechType::EconomicEfficiency },
    ];

    let batch = score_actions_batch(&country, &actions, &world, &luts);
    assert_eq!(batch.components.len(), actions.len());
    assert_eq!(batch.final_scores.len(), actions.len());

    for (idx, action) in actions.iter().enumerate() {
        let scalar_components = score_action(&country, action, &world, &luts);
        let scalar_score = scalar_components.final_score(&country.weights);

        let batch_components = &batch.components[idx];
        assert_eq!(scalar_components.delta_res, batch_components.delta_res);
        assert_eq!(scalar_components.delta_sec, batch_components.delta_sec);
        assert_eq!(scalar_components.delta_growth, batch_components.delta_growth);
        assert_eq!(scalar_components.delta_pos, batch_components.delta_pos);
        assert_eq!(scalar_components.cost, batch_components.cost);
        assert_eq!(scalar_components.risk, batch_components.risk);
        assert_eq!(scalar_score, batch.final_scores[idx]);
    }
}
